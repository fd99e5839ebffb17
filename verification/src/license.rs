//! Source-maintenance tooling: finding, checking and rewriting the license
//! tag that every source file of the project carries. Reading and writing
//! the files themselves is left to the callers.

use vstd::prelude::*;
use crate::builder::str_ends_with;
use crate::units::str_eq;

verus! {

broadcast use vstd::seq::group_seq_axioms;

/// How a license tag is written in one family of file formats: the opening
/// line, the prefix and indentation of each content line, and the closing
/// line.
pub struct LicenseTagStyle {
    pub tag_start: String,
    pub line_prefix: String,
    pub line_indentation: String,
    pub tag_end: String,
}

impl LicenseTagStyle {
    /// The style of C-like block comments.
    pub fn c_style_comment_style() -> (r: LicenseTagStyle)
        ensures
            r.tag_start@ == "/* LICENSE BEGIN\n"@,
            r.line_prefix@ == ""@,
            r.line_indentation@ == "    "@,
            r.tag_end@ == "LICENSE END */\n"@,
    {
        LicenseTagStyle {
            tag_start: String::from_str("/* LICENSE BEGIN\n"),
            line_prefix: String::from_str(""),
            line_indentation: String::from_str("    "),
            tag_end: String::from_str("LICENSE END */\n"),
        }
    }

    /// The style of hash-prefixed line comments.
    pub fn shell_comment_style() -> (r: LicenseTagStyle)
        ensures
            r.tag_start@ == "# LICENSE BEGIN\n"@,
            r.line_prefix@ == "#"@,
            r.line_indentation@ == " "@,
            r.tag_end@ == "# LICENSE END\n"@,
    {
        LicenseTagStyle {
            tag_start: String::from_str("# LICENSE BEGIN\n"),
            line_prefix: String::from_str("#"),
            line_indentation: String::from_str(" "),
            tag_end: String::from_str("# LICENSE END\n"),
        }
    }

    /// The style of reStructuredText comments.
    pub fn rst_comment_style() -> (r: LicenseTagStyle)
        ensures
            r.tag_start@ == ".. LICENSE BEGIN\n"@,
            r.line_prefix@ == ".."@,
            r.line_indentation@ == "    "@,
            r.tag_end@ == ".. LICENSE END\n"@,
    {
        LicenseTagStyle {
            tag_start: String::from_str(".. LICENSE BEGIN\n"),
            line_prefix: String::from_str(".."),
            line_indentation: String::from_str("    "),
            tag_end: String::from_str(".. LICENSE END\n"),
        }
    }
}

/// Whether the needle occurs in the haystack at the given position.
pub open spec fn spec_match_at(h: Seq<char>, n: Seq<char>, at: int) -> bool {
    0 <= at && at + n.len() <= h.len() && h.subrange(at, at + n.len() as int) == n
}

/// The first position at or after `from` where the needle occurs.
pub open spec fn spec_find_from(h: Seq<char>, n: Seq<char>, from: int) -> Option<int>
    decreases h.len() - from,
{
    if from < 0 || from + n.len() > h.len() {
        Option::None
    } else if spec_match_at(h, n, from) {
        Some(from)
    } else if from + n.len() == h.len() {
        Option::None
    } else {
        spec_find_from(h, n, from + 1)
    }
}

/// Whether the needle occurs at the position in the haystack.
fn match_at(hay: &str, needle: &str, at: usize) -> (r: bool)
    requires
        at + needle@.len() <= hay@.len(),
        hay@.len() <= usize::MAX,
    ensures
        r == spec_match_at(hay@, needle@, at as int),
{
    let n = needle.unicode_len();
    let mut i: usize = 0;
    while i < n
        invariant
            0 <= i <= n,
            n == needle@.len(),
            at + n <= hay@.len(),
            hay@.len() <= usize::MAX,
            forall|j: int| 0 <= j < i ==> hay@[at + j] == needle@[j],
        decreases n - i,
    {
        let hc = hay.get_char(at + i);
        let nc = needle.get_char(i);
        if hc != nc {
            proof {
                assert(hay@.subrange(at as int, at + n) != needle@) by {
                    assert(hay@.subrange(at as int, at + n)[i as int] == hay@[at + i]);
                }
            }
            return false;
        }
        i = i + 1;
    }
    proof {
        assert(hay@.subrange(at as int, at + n as int) =~= needle@);
    }
    true
}

/// Find the first occurrence of a needle, by character position.
pub fn find_str(hay: &str, needle: &str) -> (r: Option<usize>)
    ensures
        (match r {
            Some(i) => spec_find_from(hay@, needle@, 0) == Some(i as int),
            Option::None => spec_find_from(hay@, needle@, 0) is None,
        }),
{
    let hn = hay.unicode_len();
    let nn = needle.unicode_len();
    if nn > hn {
        return Option::None;
    }
    if nn == 0 {
        proof {
            assert(hay@.subrange(0, 0) =~= needle@);
        }
        return Some(0);
    }
    let mut i: usize = 0;
    while i <= hn - nn
        invariant
            0 <= i <= hn - nn + 1,
            1 <= nn <= hn,
            hn == hay@.len(),
            nn == needle@.len(),
            spec_find_from(hay@, needle@, 0) == spec_find_from(hay@, needle@, i as int),
        decreases hn + 1 - nn - i,
    {
        if match_at(hay, needle, i) {
            return Some(i);
        }
        i = i + 1;
    }
    Option::None
}

/// A source text with the location of its license tag, when it has one: the
/// character range from the start line through the end line.
pub struct SourceFileWithTags<'a> {
    pub source: &'a str,
    pub tag_style: &'a LicenseTagStyle,
    pub tag_location: Option<(usize, usize)>,
}

/// The tag range that a source text has under a style: from the first
/// occurrence of the start marker to the end of the first end marker after
/// it; no range when either marker is missing.
pub open spec fn spec_tag_location(source: Seq<char>, style: LicenseTagStyle) -> Option<
    (int, int),
> {
    match spec_find_from(source, style.tag_start@, 0) {
        Some(start) => {
            match spec_find_from(source, style.tag_end@, start) {
                Some(e) => {
                    let end = e + style.tag_end@.len();
                    if end > start {
                        Some((start, end))
                    } else {
                        Option::None
                    }
                }
                Option::None => Option::None,
            }
        }
        Option::None => Option::None,
    }
}

impl<'a> SourceFileWithTags<'a> {
    /// Scan a source text for its license tag.
    pub fn new(source: &'a str, style: &'a LicenseTagStyle) -> (r: SourceFileWithTags<'a>)
        ensures
            r.source@ == source@,
            r.tag_style == style,
            (match r.tag_location {
                Some((s, e)) => spec_tag_location(source@, *style) == Some((s as int, e as int))
                    && s <= e <= source@.len(),
                Option::None => spec_tag_location(source@, *style) is None,
            }),
    {
        let location: Option<(usize, usize)> = match find_str(source, style.tag_start.as_str()) {
            Some(start) => {
                proof {
                    lemma_find_in_range(source@, style.tag_start@, 0);
                }
                let rest = source.substring_char(start, source.unicode_len());
                proof {
                    lemma_find_from_shift(source@, style.tag_end@, start as int);
                }
                match find_str(rest, style.tag_end.as_str()) {
                    Some(idx) => {
                        proof {
                            lemma_find_in_range(rest@, style.tag_end@, 0);
                            lemma_find_in_range(source@, style.tag_end@, start as int);
                        }
                        let e = start + idx;
                        let end = e + style.tag_end.unicode_len();
                        if end > start {
                            proof {
                                lemma_find_in_range(source@, style.tag_end@, start as int);
                            }
                            Some((start, end))
                        } else {
                            Option::None
                        }
                    }
                    Option::None => Option::None,
                }
            }
            Option::None => Option::None,
        };
        SourceFileWithTags { source, tag_style: style, tag_location: location }
    }

    /// Whether the text has a license tag.
    pub fn has_tag(&self) -> (r: bool)
        ensures
            r == (self.tag_location is Some),
    {
        self.tag_location.is_some()
    }

    /// The text of the found tag, empty when there is none.
    pub fn found_tag(&self) -> (r: &'a str)
        requires
            (match self.tag_location {
                Some((s, e)) => s <= e <= self.source@.len(),
                Option::None => true,
            }),
        ensures
            (match self.tag_location {
                Some((s, e)) => r@ == self.source@.subrange(s as int, e as int),
                Option::None => r@ == Seq::<char>::empty(),
            }),
    {
        match self.tag_location {
            Some((s, e)) => self.source.substring_char(s, e),
            Option::None => {
                let r = "";
                proof {
                    reveal_strlit("");
                    assert(r@ =~= Seq::<char>::empty());
                }
                r
            }
        }
    }

    /// Whether the found tag is exactly the expected header rendered in this
    /// text's style.
    pub fn tag_matches(&self, expected_tag: &LicenseHeader) -> (r: bool)
        requires
            (match self.tag_location {
                Some((s, e)) => s <= e <= self.source@.len(),
                Option::None => true,
            }),
        ensures
            r == (match self.tag_location {
                Some((s, e)) => self.source@.subrange(s as int, e as int) == spec_header_str(
                    *expected_tag,
                    *self.tag_style,
                ),
                Option::None => false,
            }),
    {
        match self.tag_location {
            Some((s, e)) => {
                let expected = expected_tag.to_string(self.tag_style);
                let found = self.source.substring_char(s, e);
                str_eq(expected.as_str(), found)
            }
            Option::None => false,
        }
    }

    /// The text with its tag replaced by the header rendered in this text's
    /// style; a text without a tag gets the header prepended.
    pub fn replace_tag(&self, replacement: &LicenseHeader) -> (r: String)
        requires
            (match self.tag_location {
                Some((s, e)) => s <= e <= self.source@.len(),
                Option::None => true,
            }),
        ensures
            r@ == (match self.tag_location {
                Some((s, e)) => self.source@.subrange(0, s as int) + spec_header_str(
                    *replacement,
                    *self.tag_style,
                ) + self.source@.subrange(e as int, self.source@.len() as int),
                Option::None => spec_header_str(*replacement, *self.tag_style) + self.source@,
            }),
    {
        let new_header = replacement.to_string(self.tag_style);
        match self.tag_location {
            Some((s, e)) => {
                let prefix = self.source.substring_char(0, s);
                let suffix = self.source.substring_char(e, self.source.unicode_len());
                let mut out = String::from_str(prefix);
                out.append(new_header.as_str());
                out.append(suffix);
                out
            }
            Option::None => {
                let mut out = new_header;
                out.append(self.source);
                out
            }
        }
    }
}

/// Searching past a prefix finds what searching the suffix finds, shifted.
proof fn lemma_find_from_shift(h: Seq<char>, n: Seq<char>, start: int)
    requires
        0 <= start <= h.len(),
    ensures
        (match spec_find_from(h.subrange(start, h.len() as int), n, 0) {
            Some(i) => spec_find_from(h, n, start) == Some(start + i),
            Option::None => spec_find_from(h, n, start) is None,
        }),
    decreases h.len() - start, 2int,
{
    let tail = h.subrange(start, h.len() as int);
    if start + n.len() > h.len() {
    } else {
        if n.len() == 0 {
            assert(h.subrange(start, start + n.len()) =~= n);
        }
        assert(spec_match_at(tail, n, 0) == spec_match_at(h, n, start)) by {
            assert(tail.subrange(0, n.len() as int) =~= h.subrange(start, start + n.len()));
        }
        if spec_match_at(h, n, start) {
        } else if start + n.len() == h.len() {
        } else {
            lemma_find_from_shift(h, n, start + 1);
            assert(h.subrange(start + 1, h.len() as int) =~= tail.subrange(
                1,
                tail.len() as int,
            ));
            lemma_find_from_tail(tail, n);
        }
    }
}

/// A search that fails at the front continues in the tail.
proof fn lemma_find_from_tail(tail: Seq<char>, n: Seq<char>)
    requires
        tail.len() >= 1 || true,
    ensures
        tail.len() >= 1 && n.len() <= tail.len() && !spec_match_at(tail, n, 0) ==> (match
            spec_find_from(tail.subrange(1, tail.len() as int), n, 0) {
            Some(i) => spec_find_from(tail, n, 0) == Some(1 + i),
            Option::None => spec_find_from(tail, n, 0) is None,
        }),
    decreases tail.len(), 1int,
{
    if tail.len() >= 1 && n.len() <= tail.len() && !spec_match_at(tail, n, 0) {
        lemma_find_sub_shift(tail, n, 1);
    }
}

/// Searching from an offset equals searching the suffix from zero, shifted.
proof fn lemma_find_sub_shift(h: Seq<char>, n: Seq<char>, k: int)
    requires
        0 <= k <= h.len(),
    ensures
        (match spec_find_from(h.subrange(k, h.len() as int), n, 0) {
            Some(i) => spec_find_from(h, n, k) == Some(k + i),
            Option::None => spec_find_from(h, n, k) is None,
        }),
    decreases h.len() - k, 3int,
{
    lemma_find_from_shift(h, n, k);
}

/// A found range lies inside the text.
proof fn lemma_find_in_range(h: Seq<char>, n: Seq<char>, from: int)
    ensures
        (match spec_find_from(h, n, from) {
            Some(i) => from <= i && i + n.len() <= h.len(),
            Option::None => true,
        }),
    decreases h.len() - from,
{
    if from >= 0 && from + n.len() <= h.len() {
        if !spec_match_at(h, n, from) && from + n.len() < h.len() {
            lemma_find_in_range(h, n, from + 1);
        }
    }
}

/// The license text to render between the tag markers, line by line.
pub struct LicenseHeader {
    pub lines: Vec<String>,
}

/// The header rendered in a style: the start marker, each line prefixed and,
/// when the line has text, indented, each ending in a newline, then the end
/// marker.
pub open spec fn spec_header_str(h: LicenseHeader, style: LicenseTagStyle) -> Seq<char> {
    style.tag_start@ + spec_header_lines(h.lines@, style) + style.tag_end@
}

pub open spec fn spec_header_lines(lines: Seq<String>, style: LicenseTagStyle) -> Seq<char>
    decreases lines,
{
    if lines.len() == 0 {
        Seq::empty()
    } else {
        spec_header_line(lines[0]@, style) + spec_header_lines(lines.skip(1), style)
    }
}

pub open spec fn spec_header_line(line: Seq<char>, style: LicenseTagStyle) -> Seq<char> {
    style.line_prefix@ + (if line.len() == 0 {
        Seq::<char>::empty()
    } else {
        style.line_indentation@
    }) + line + "\n"@
}

impl LicenseHeader {
    pub fn new(lines: Vec<String>) -> (r: LicenseHeader)
        ensures
            r.lines == lines,
    {
        LicenseHeader { lines }
    }

    /// Render the header in a style.
    pub fn to_string(&self, style: &LicenseTagStyle) -> (r: String)
        ensures
            r@ == spec_header_str(*self, *style),
    {
        let mut result = String::from_str(style.tag_start.as_str());
        let mut i: usize = 0;
        while i < self.lines.len()
            invariant
                0 <= i <= self.lines@.len(),
                result@ == style.tag_start@ + spec_header_lines_upto(
                    self.lines@,
                    *style,
                    i as int,
                ),
            decreases self.lines@.len() - i,
        {
            result.append(style.line_prefix.as_str());
            if self.lines[i].as_str().unicode_len() > 0 {
                result.append(style.line_indentation.as_str());
            }
            result.append(self.lines[i].as_str());
            result.append("\n");
            proof {
                lemma_header_lines_snoc(self.lines@, *style, i as int + 1);
                assert(result@ =~= style.tag_start@ + spec_header_lines_upto(
                    self.lines@,
                    *style,
                    i as int + 1,
                ));
            }
            i = i + 1;
        }
        proof {
            lemma_header_lines_all(self.lines@, *style);
        }
        result.append(style.tag_end.as_str());
        result
    }
}

/// The rendering of the first `k` lines.
pub open spec fn spec_header_lines_upto(
    lines: Seq<String>,
    style: LicenseTagStyle,
    k: int,
) -> Seq<char>
    decreases k,
{
    if k <= 0 {
        Seq::empty()
    } else {
        spec_header_lines_upto(lines, style, k - 1) + spec_header_line(lines[k - 1]@, style)
    }
}

/// One more rendered line extends the prefix rendering.
proof fn lemma_header_lines_snoc(lines: Seq<String>, style: LicenseTagStyle, k: int)
    requires
        0 < k <= lines.len(),
    ensures
        spec_header_lines_upto(lines, style, k) == spec_header_lines_upto(lines, style, k - 1)
            + spec_header_line(lines[k - 1]@, style),
{
}

/// Rendering all lines front to back equals rendering them back to front.
proof fn lemma_header_lines_all(lines: Seq<String>, style: LicenseTagStyle)
    ensures
        spec_header_lines_upto(lines, style, lines.len() as int) == spec_header_lines(
            lines,
            style,
        ),
    decreases lines,
{
    if lines.len() == 0 {
        assert(spec_header_lines_upto(lines, style, 0) =~= spec_header_lines(lines, style));
    } else {
        lemma_header_lines_all(lines.skip(1), style);
        lemma_header_upto_skip(lines, style, lines.len() as int);
        assert(spec_header_lines(lines, style) == spec_header_line(lines[0]@, style)
            + spec_header_lines(lines.skip(1), style));
    }
}

/// The prefix rendering of a sequence relates to that of its tail.
proof fn lemma_header_upto_skip(lines: Seq<String>, style: LicenseTagStyle, k: int)
    requires
        1 <= k <= lines.len(),
    ensures
        spec_header_lines_upto(lines, style, k) =~= spec_header_line(lines[0]@, style)
            + spec_header_lines_upto(lines.skip(1), style, k - 1),
    decreases k,
{
    if k == 1 {
        assert(spec_header_lines_upto(lines, style, 0) == Seq::<char>::empty());
        assert(spec_header_lines_upto(lines, style, 1) == Seq::<char>::empty()
            + spec_header_line(lines[0]@, style));
        assert(Seq::<char>::empty() + spec_header_line(lines[0]@, style) =~= spec_header_line(
            lines[0]@,
            style,
        ));
        assert(spec_header_lines_upto(lines.skip(1), style, 0) == Seq::<char>::empty());
        assert(spec_header_line(lines[0]@, style) + Seq::<char>::empty() =~= spec_header_line(
            lines[0]@,
            style,
        ));
    } else {
        lemma_header_upto_skip(lines, style, k - 1);
        assert(lines.skip(1)[k - 2] == lines[k - 1]);
    }
}


/// The tag style a file uses, decided by its suffix: C-like block comments
/// for code, hash comments for scripts and build configuration,
/// reStructuredText comments for documentation; nothing for files that carry
/// no tag.
pub fn style_for_suffix(path: &str) -> (r: Option<LicenseTagStyle>)
    ensures
        (match r {
            Some(style) => style.tag_start@ == "/* LICENSE BEGIN\n"@ || style.tag_start@
                == "# LICENSE BEGIN\n"@ || style.tag_start@ == ".. LICENSE BEGIN\n"@,
            Option::None => true,
        }),
{
    let c_like = str_ends_with(path, ".rs") || str_ends_with(path, ".js") || str_ends_with(
        path,
        ".h",
    ) || str_ends_with(path, ".cpp") || str_ends_with(path, ".60");
    if c_like {
        return Some(LicenseTagStyle::c_style_comment_style());
    }
    let hash_like = str_ends_with(path, ".sh") || str_ends_with(path, ".yaml")
        || str_ends_with(path, ".cmake");
    if hash_like {
        return Some(LicenseTagStyle::shell_comment_style());
    }
    if str_ends_with(path, ".rst") {
        return Some(LicenseTagStyle::rst_comment_style());
    }
    Option::None
}

/// What the manifest check reads out of one package manifest: the fields it
/// validates and, for each dependency whose name marks it as part of this
/// project, the written version requirement and whether it is a path
/// dependency.
pub struct PackageMetadata {
    pub license: Option<String>,
    pub publish: Option<bool>,
    pub homepage: Option<String>,
    pub repository: Option<String>,
    pub has_description: bool,
    pub package_version: String,
    /// Name, version requirement, and whether a path is given.
    pub dependencies: Vec<(String, Option<String>, bool)>,
}

/// What can be wrong with a package manifest, in the order it is checked.
#[derive(Clone, Copy, PartialEq, Eq, Structural, Debug)]
pub enum MetadataError {
    MissingLicense,
    WrongLicense,
    MissingHomepage,
    WrongHomepage,
    MissingRepository,
    WrongRepository,
    MissingDescription,
    ProjectDependencyOutside,
    ProjectDependencyVersion,
}

/// Whether a string starts with a prefix.
pub fn str_starts_with(s: &str, prefix: &str) -> (r: bool)
    ensures
        r == (s@.len() >= prefix@.len() && s@.subrange(0, prefix@.len() as int) == prefix@),
{
    let n = s.unicode_len();
    let m = prefix.unicode_len();
    if n < m {
        return false;
    }
    let head = s.substring_char(0, m);
    str_eq(head, prefix)
}

/// The outcome the manifest rules give for a dependency entry.
pub open spec fn spec_dep_error(
    dep: (String, Option<String>, bool),
    project_prefix: Seq<char>,
    expected_version: Seq<char>,
) -> Option<MetadataError> {
    if dep.0@.len() >= project_prefix.len() && dep.0@.subrange(0, project_prefix.len() as int)
        == project_prefix {
        if !dep.2 {
            Some(MetadataError::ProjectDependencyOutside)
        } else {
            match dep.1 {
                Some(v) => if v@ == expected_version {
                    Option::None
                } else {
                    Some(MetadataError::ProjectDependencyVersion)
                },
                Option::None => Some(MetadataError::ProjectDependencyVersion),
            }
        }
    } else {
        Option::None
    }
}

/// The first dependency error, if any.
pub open spec fn spec_deps_error(
    deps: Seq<(String, Option<String>, bool)>,
    project_prefix: Seq<char>,
    expected_version: Seq<char>,
) -> Option<MetadataError>
    decreases deps,
{
    if deps.len() == 0 {
        Option::None
    } else {
        match spec_dep_error(deps[0], project_prefix, expected_version) {
            Some(e) => Some(e),
            Option::None => spec_deps_error(deps.skip(1), project_prefix, expected_version),
        }
    }
}

/// The outcome of validating a manifest: the checks run in a fixed order and
/// the first violated one names the error. A package that is not published
/// only needs the right license.
pub open spec fn spec_validate_metadata(
    meta: PackageMetadata,
    expected_license: Seq<char>,
    expected_homepage: Seq<char>,
    expected_repository: Seq<char>,
    project_prefix: Seq<char>,
) -> Result<(), MetadataError> {
    if meta.license is None {
        Err(MetadataError::MissingLicense)
    } else if meta.license->Some_0@ != expected_license {
        Err(MetadataError::WrongLicense)
    } else if (match meta.publish {
        Some(p) => !p,
        Option::None => false,
    }) {
        Ok(())
    } else if meta.homepage is None {
        Err(MetadataError::MissingHomepage)
    } else if meta.homepage->Some_0@ != expected_homepage {
        Err(MetadataError::WrongHomepage)
    } else if meta.repository is None {
        Err(MetadataError::MissingRepository)
    } else if meta.repository->Some_0@ != expected_repository {
        Err(MetadataError::WrongRepository)
    } else if !meta.has_description {
        Err(MetadataError::MissingDescription)
    } else {
        match spec_deps_error(
            meta.dependencies@,
            project_prefix,
            seq!['='] + meta.package_version@,
        ) {
            Some(e) => Err(e),
            Option::None => Ok(()),
        }
    }
}

/// Validate the metadata of one package manifest against the project rules:
/// the expected license, and for published packages the expected homepage,
/// repository, a description, and that every dependency on a project crate
/// is a path dependency pinned to exactly this package's version.
pub fn validate_package_metadata(
    meta: &PackageMetadata,
    expected_license: &str,
    expected_homepage: &str,
    expected_repository: &str,
    project_prefix: &str,
) -> (r: Result<(), MetadataError>)
    ensures
        r == spec_validate_metadata(
            *meta,
            expected_license@,
            expected_homepage@,
            expected_repository@,
            project_prefix@,
        ),
{
    match &meta.license {
        Option::None => {
            return Err(MetadataError::MissingLicense);
        }
        Some(l) => {
            if !str_eq(l.as_str(), expected_license) {
                return Err(MetadataError::WrongLicense);
            }
        }
    }
    match meta.publish {
        Some(p) => {
            if !p {
                return Ok(());
            }
        }
        Option::None => {}
    }
    match &meta.homepage {
        Option::None => {
            return Err(MetadataError::MissingHomepage);
        }
        Some(h) => {
            if !str_eq(h.as_str(), expected_homepage) {
                return Err(MetadataError::WrongHomepage);
            }
        }
    }
    match &meta.repository {
        Option::None => {
            return Err(MetadataError::MissingRepository);
        }
        Some(rp) => {
            if !str_eq(rp.as_str(), expected_repository) {
                return Err(MetadataError::WrongRepository);
            }
        }
    }
    if !meta.has_description {
        return Err(MetadataError::MissingDescription);
    }
    let mut expected_version = String::from_str("=");
    expected_version.append(meta.package_version.as_str());
    proof {
        reveal_strlit("=");
    }
    let n = meta.dependencies.len();
    let mut i: usize = 0;
    proof {
        assert(meta.dependencies@.skip(0) =~= meta.dependencies@);
    }
    while i < n
        invariant
            0 <= i <= n,
            n == meta.dependencies@.len(),
            expected_version@ == seq!['='] + meta.package_version@,
            meta.license matches Some(l) && l@ == expected_license@,
            !(match meta.publish {
                Some(p) => !p,
                Option::None => false,
            }),
            meta.homepage matches Some(h) && h@ == expected_homepage@,
            meta.repository matches Some(rp) && rp@ == expected_repository@,
            meta.has_description,
            spec_deps_error(
                meta.dependencies@,
                project_prefix@,
                seq!['='] + meta.package_version@,
            ) == spec_deps_error(
                meta.dependencies@.skip(i as int),
                project_prefix@,
                seq!['='] + meta.package_version@,
            ),
        decreases n - i,
    {
        proof {
            assert(meta.dependencies@.skip(i as int)[0] == meta.dependencies@[i as int]);
            assert(meta.dependencies@.skip(i as int).skip(1) =~= meta.dependencies@.skip(
                i as int + 1,
            ));
        }
        let dep = &meta.dependencies[i];
        if str_starts_with(dep.0.as_str(), project_prefix) {
            if !dep.2 {
                return Err(MetadataError::ProjectDependencyOutside);
            }
            match &dep.1 {
                Some(v) => {
                    if !str_eq(v.as_str(), expected_version.as_str()) {
                        return Err(MetadataError::ProjectDependencyVersion);
                    }
                }
                Option::None => {
                    return Err(MetadataError::ProjectDependencyVersion);
                }
            }
        }
        i = i + 1;
    }
    proof {
        assert(meta.dependencies@.skip(n as int) =~= Seq::<
            (String, Option<String>, bool),
        >::empty());
    }
    Ok(())
}

} // verus!
