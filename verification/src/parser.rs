use vstd::prelude::*;

use std::path::PathBuf;

use crate::error::{ErrorV, FlareError};
use crate::text::{
    chars_of, eq_str, find_char, skip_line_chars, section_title_chars, spec_lines,
    spec_section_title, spec_skip_line, spec_split_key_value, spec_trim, split_key_value_chars,
    split_lines, starts_with_str, strip_end_all, strip_end_char, string_of, trim_chars,
};

verus! {

/// A single key/value entry from a FLARE definition file.
#[derive(Debug, Clone, PartialEq, Eq)]
pub struct Entry {
    pub section: String,
    pub key: String,
    pub value: String,
    pub line: usize,
    pub new_section: bool,
}

/// Mathematical model of an [`Entry`].
pub struct EntryV {
    pub section: Seq<char>,
    pub key: Seq<char>,
    pub value: Seq<char>,
    pub line: usize,
    pub new_section: bool,
}

impl View for Entry {
    type V = EntryV;

    open spec fn view(&self) -> EntryV {
        EntryV {
            section: self.section@,
            key: self.key@,
            value: self.value@,
            line: self.line,
            new_section: self.new_section,
        }
    }
}

/// The models of a sequence of entries.
pub open spec fn entries_view(v: Seq<Entry>) -> Seq<EntryV> {
    v.map_values(|e: Entry| e@)
}

/// The model of a list of entries or an error.
pub open spec fn entries_result(r: Result<Vec<Entry>, FlareError>) -> Result<Seq<EntryV>, ErrorV> {
    match r {
        Ok(v) => Ok(entries_view(v@)),
        Err(e) => Err(e@),
    }
}

/// The models of a list of lines.
pub open spec fn lines_view(v: Seq<Vec<char>>) -> Seq<Seq<char>> {
    v.map_values(|l: Vec<char>| l@)
}

/// What one line of a definition file is.
pub enum LineKind {
    /// Blank, comment, or the `APPEND` marker.
    Skip,
    /// A `[section]` header, with its name.
    Section(Seq<char>),
    /// An `INCLUDE path` directive, with the trimmed path.
    Include(Seq<char>),
    /// A `key=value` line.
    KeyValue(Seq<char>, Seq<char>),
    /// Anything else.
    Malformed,
}

/// Classifies one line of a definition file.
pub open spec fn line_kind(line: Seq<char>) -> LineKind {
    let t = spec_trim(line);
    if spec_skip_line(line) || t == "APPEND"@ {
        LineKind::Skip
    } else if t[0] == '[' {
        LineKind::Section(spec_section_title(line))
    } else if "INCLUDE "@.len() <= t.len() && t.take("INCLUDE "@.len() as int) == "INCLUDE "@ {
        LineKind::Include(spec_trim(t.skip("INCLUDE "@.len() as int)))
    } else {
        match spec_split_key_value(line) {
            Some((k, v)) => LineKind::KeyValue(k, v),
            None => LineKind::Malformed,
        }
    }
}

/// How reading the lines of a file stopped.
pub enum ScanV {
    /// All lines were read; the entries and the section at the end.
    Done(Seq<EntryV>, Seq<char>),
    /// An `INCLUDE` line was reached: the entries so far, the current section,
    /// the path to include, and the index of the line after the directive.
    Include(Seq<EntryV>, Seq<char>, Seq<char>, int),
    /// A line could not be read.
    Failed(ErrorV),
}

/// Reads `lines` of the file `source` from index `i` on, in section `section`,
/// after the entries `acc`, up to the end, an `INCLUDE`, or an error.
pub open spec fn spec_scan(
    lines: Seq<Seq<char>>,
    source: Seq<char>,
    ancestors: Seq<Seq<char>>,
    i: int,
    section: Seq<char>,
    acc: Seq<EntryV>,
) -> ScanV
    decreases lines.len() - i,
{
    if i < 0 || i >= lines.len() {
        ScanV::Done(acc, section)
    } else {
        match line_kind(lines[i]) {
            LineKind::Skip => spec_scan(lines, source, ancestors, i + 1, section, acc),
            LineKind::Section(title) => spec_scan(
                lines,
                source,
                ancestors,
                i + 1,
                title,
                acc.push(
                    EntryV {
                        section: title,
                        key: Seq::empty(),
                        value: Seq::empty(),
                        line: (i + 1) as usize,
                        new_section: true,
                    },
                ),
            ),
            LineKind::Include(p) => if include_cycles(p, source, ancestors) {
                ScanV::Failed(ErrorV::RecursiveInclude(p))
            } else {
                ScanV::Include(acc, section, p, i + 1)
            },
            LineKind::KeyValue(k, v) => spec_scan(
                lines,
                source,
                ancestors,
                i + 1,
                section,
                acc.push(EntryV { section, key: k, value: v, line: (i + 1) as usize, new_section: false }),
            ),
            LineKind::Malformed => ScanV::Failed(
                ErrorV::Parse { file: source, line: (i + 1) as usize, message: "expected key=value"@ },
            ),
        }
    }
}

/// Where [`scan_lines`] stopped without error.
#[derive(Debug, Clone, PartialEq, Eq)]
pub enum Scan {
    /// Every line was read.
    Done,
    /// The line before `next_line` includes the file `path`.
    Include { path: String, next_line: usize },
}

fn line_kind_exec(line: &[char]) -> (r: (u8, Vec<char>, Vec<char>))
    ensures
        match line_kind(line@) {
            LineKind::Skip => r.0 == 0,
            LineKind::Section(t) => r.0 == 1 && r.1@ == t,
            LineKind::Include(p) => r.0 == 2 && r.1@ == p,
            LineKind::KeyValue(k, v) => r.0 == 3 && r.1@ == k && r.2@ == v,
            LineKind::Malformed => r.0 == 4,
        },
{
    let empty: Vec<char> = Vec::new();
    if skip_line_chars(line) {
        return (0, empty, Vec::new());
    }
    let t = trim_chars(line);
    if eq_str(t, "APPEND") {
        return (0, empty, Vec::new());
    }
    if t[0] == '[' {
        return (1, vstd::slice::slice_to_vec(section_title_chars(line)), Vec::new());
    }
    if starts_with_str(t, "INCLUDE ") {
        let n = chars_of("INCLUDE ").len();
        let rest = vstd::slice::slice_subrange(t, n, t.len());
        assert(rest@ =~= t@.skip("INCLUDE "@.len() as int));
        return (2, vstd::slice::slice_to_vec(trim_chars(rest)), Vec::new());
    }
    match split_key_value_chars(line) {
        Some((k, v)) => (3, vstd::slice::slice_to_vec(k), vstd::slice::slice_to_vec(v)),
        None => (4, empty, Vec::new()),
    }
}

/// Whether including `path` from the file `source`, itself reached through
/// the includes of `ancestors`, would read a file that is already being read.
pub open spec fn include_cycles(path: Seq<char>, source: Seq<char>, ancestors: Seq<Seq<char>>) -> bool {
    path == source || ancestors.contains(path)
}

/// The models of a list of file names.
pub open spec fn names_view(v: Seq<String>) -> Seq<Seq<char>> {
    v.map_values(|s: String| s@)
}

/// Whether `path` is one of `names`.
pub fn is_listed(names: &[String], path: &[char]) -> (r: bool)
    ensures
        r == names_view(names@).contains(path@),
{
    let ghost nv = names_view(names@);
    let mut i: usize = 0;
    while i < names.len()
        invariant
            i <= names.len(),
            nv == names_view(names@),
            forall|j: int| 0 <= j < i ==> #[trigger] nv[j] != path@,
        decreases names.len() - i,
    {
        assert(nv[i as int] == names@[i as int]@);
        if eq_str(path, names[i].as_str()) {
            assert(nv[i as int] == path@);
            return true;
        }
        i += 1;
    }
    false
}

/// Reads the lines of the file `source` from index `start` on.
///
/// Entries are appended to `entries`; `section` follows the section headers.
/// Reading stops at the end of the lines, at an `INCLUDE` directive (whose
/// file the caller reads), or at the first error.
pub fn scan_lines(
    lines: &Vec<Vec<char>>,
    source: &str,
    start: usize,
    section: &mut String,
    entries: &mut Vec<Entry>,
) -> (r: Result<Scan, FlareError>)
    ensures
        ({
            let s = spec_scan(
                lines_view(lines@),
                source@,
                Seq::empty(),
                start as int,
                old(section)@,
                entries_view(old(entries)@),
            );
            match r {
                Ok(Scan::Done) => s == ScanV::Done(entries_view(final(entries)@), final(section)@),
                Ok(Scan::Include { path, next_line }) => s == ScanV::Include(
                    entries_view(final(entries)@),
                    final(section)@,
                    path@,
                    next_line as int,
                ),
                Err(e) => s == ScanV::Failed(e@),
            }
        }),
{
    let none: Vec<String> = Vec::new();
    assert(names_view(none@) =~= Seq::<Seq<char>>::empty());
    scan_lines_within(lines, source, none.as_slice(), start, section, entries)
}

/// Reads the lines of the file `source`, which was reached through the
/// includes of the files `ancestors`, from index `start` on.
///
/// As [`scan_lines`]; an `INCLUDE` of `source` or of one of `ancestors` is a
/// recursive include and an error.
pub fn scan_lines_within(
    lines: &Vec<Vec<char>>,
    source: &str,
    ancestors: &[String],
    start: usize,
    section: &mut String,
    entries: &mut Vec<Entry>,
) -> (r: Result<Scan, FlareError>)
    ensures
        ({
            let s = spec_scan(
                lines_view(lines@),
                source@,
                names_view(ancestors@),
                start as int,
                old(section)@,
                entries_view(old(entries)@),
            );
            match r {
                Ok(Scan::Done) => s == ScanV::Done(entries_view(final(entries)@), final(section)@),
                Ok(Scan::Include { path, next_line }) => s == ScanV::Include(
                    entries_view(final(entries)@),
                    final(section)@,
                    path@,
                    next_line as int,
                ),
                Err(e) => s == ScanV::Failed(e@),
            }
        }),
{
    let ghost lv = lines_view(lines@);
    let ghost av = names_view(ancestors@);
    let ghost goal = spec_scan(lv, source@, av, start as int, section@, entries_view(entries@));
    let mut i = start;
    if i > lines.len() {
        i = lines.len();
    }
    while i < lines.len()
        invariant
            lv == lines_view(lines@),
            av == names_view(ancestors@),
            goal == spec_scan(lv, source@, av, start as int, old(section)@, entries_view(old(entries)@)),
            start <= i || i == lines.len(),
            i <= lines.len(),
            goal == spec_scan(lv, source@, av, i as int, section@, entries_view(entries@)),
        decreases lines.len() - i,
    {
        let line = &lines[i];
        assert(lv[i as int] == line@);
        let (kind, a, b) = line_kind_exec(line.as_slice());
        if kind == 1 {
            let title = string_of(&a);
            *section = string_of(&a);
            let e = Entry {
                section: title,
                key: String::new(),
                value: String::new(),
                line: i + 1,
                new_section: true,
            };
            proof {
                assert(entries_view(entries@.push(e)) =~= entries_view(entries@).push(e@));
            }
            entries.push(e);
        } else if kind == 2 {
            if eq_str(&a, source) || is_listed(ancestors, &a) {
                return Err(FlareError::RecursiveInclude(string_of(&a)));
            }
            return Ok(Scan::Include { path: string_of(&a), next_line: i + 1 });
        } else if kind == 3 {
            let e = Entry {
                section: section.clone(),
                key: string_of(&a),
                value: string_of(&b),
                line: i + 1,
                new_section: false,
            };
            proof {
                assert(entries_view(entries@.push(e)) =~= entries_view(entries@).push(e@));
            }
            entries.push(e);
        } else if kind == 4 {
            return Err(FlareError::parse(source, i + 1, "expected key=value"));
        }
        i += 1;
    }
    Ok(Scan::Done)
}

/// The result of `parse_str`: the entries of a file, in which no `INCLUDE`
/// can be resolved.
pub open spec fn spec_parse_str(content: Seq<char>, source: Seq<char>) -> Result<Seq<EntryV>, ErrorV> {
    match spec_scan(spec_lines(content), source, Seq::empty(), 0, Seq::empty(), Seq::empty()) {
        ScanV::Done(es, _) => Ok(es),
        ScanV::Include(_, _, path, _) => Err(ErrorV::FileNotFound(path)),
        ScanV::Failed(e) => Err(e),
    }
}

/// Parse a FLARE definition file from a string.
pub fn parse_str(content: &str, source: &str) -> (r: Result<Vec<Entry>, FlareError>)
    ensures
        entries_result(r) == spec_parse_str(content@, source@),
{
    let lines = split_lines(content);
    let mut section = String::new();
    let mut entries: Vec<Entry> = Vec::new();
    assert(entries_view(entries@) =~= Seq::<EntryV>::empty());
    match scan_lines(&lines, source, 0, &mut section, &mut entries) {
        Ok(Scan::Done) => Ok(entries),
        Ok(Scan::Include { path, next_line: _ }) => Err(FlareError::FileNotFound(path)),
        Err(e) => Err(e),
    }
}

} // verus!

verus! {

/// An included entry takes the including section when it has none of its own.
pub open spec fn with_section(e: EntryV, section: Seq<char>) -> EntryV {
    if e.section.len() == 0 {
        EntryV { section, ..e }
    } else {
        e
    }
}

/// Gives every entry without a section the section `section` (the section in
/// which an `INCLUDE` directive stood).
pub fn inherit_section(nested: &mut Vec<Entry>, section: &str)
    ensures
        entries_view(final(nested)@) == entries_view(old(nested)@).map_values(
            |e: EntryV| with_section(e, section@),
        ),
{
    let ghost orig = entries_view(nested@);
    let mut i: usize = 0;
    while i < nested.len()
        invariant
            i <= nested.len(),
            orig.len() == nested.len(),
            orig == entries_view(old(nested)@),
            forall|j: int| 0 <= j < i ==> (#[trigger] nested@[j])@ == with_section(orig[j], section@),
            forall|j: int| i <= j < nested.len() ==> (#[trigger] nested@[j])@ == orig[j],
        decreases nested.len() - i,
    {
        if nested[i].section.as_str().is_empty() {
            let e = Entry {
                section: string_of(&chars_of(section)),
                key: nested[i].key.clone(),
                value: nested[i].value.clone(),
                line: nested[i].line,
                new_section: nested[i].new_section,
            };
            nested.set(i, e);
        }
        i += 1;
    }
    assert(entries_view(nested@) =~= orig.map_values(|e: EntryV| with_section(e, section@)));
}

/// The raw data rows that follow line `i` on: comment and blank lines are
/// passed over, a section header or a `key=value` line ends them; each row is
/// trimmed and loses its trailing commas.
pub open spec fn spec_data_rows(lines: Seq<Seq<char>>, i: int) -> Seq<Seq<char>>
    decreases lines.len() - i,
{
    if i < 0 || i >= lines.len() {
        Seq::empty()
    } else if spec_skip_line(lines[i]) {
        spec_data_rows(lines, i + 1)
    } else {
        let t = spec_trim(lines[i]);
        if t[0] == '[' || t.contains('=') {
            Seq::empty()
        } else {
            seq![strip_end_all(t, ',')] + spec_data_rows(lines, i + 1)
        }
    }
}

/// The result of `collect_data_rows`: the rows after the line with index `data_line`.
pub open spec fn spec_collect_data_rows(content: Seq<char>, data_line: int) -> Seq<Seq<char>> {
    let ls = spec_lines(content);
    if data_line >= ls.len() {
        Seq::empty()
    } else {
        spec_data_rows(ls, data_line + 1)
    }
}

/// Collect raw lines following a `data=` key (used by map layers).
pub fn collect_data_rows(content: &str, data_line: usize) -> (r: Result<Vec<String>, FlareError>)
    ensures
        r is Ok,
        r matches Ok(rows) ==> rows@.map_values(|s: String| s@) == spec_collect_data_rows(
            content@,
            data_line as int,
        ),
{
    let lines = split_lines(content);
    let ghost ls = lines_view(lines@);
    let mut rows: Vec<String> = Vec::new();
    if data_line >= lines.len() {
        assert(rows@.map_values(|s: String| s@) =~= Seq::<Seq<char>>::empty());
        return Ok(rows);
    }
    let ghost goal = spec_data_rows(ls, data_line + 1);
    let mut i = data_line + 1;
    assert(rows@.map_values(|s: String| s@) =~= Seq::<Seq<char>>::empty());
    while i < lines.len()
        invariant
            ls == lines_view(lines@),
            goal == spec_collect_data_rows(content@, data_line as int),
            i <= lines.len(),
            goal == rows@.map_values(|s: String| s@) + spec_data_rows(ls, i as int),
        decreases lines.len() - i,
    {
        let line = lines[i].as_slice();
        assert(ls[i as int] == line@);
        if !skip_line_chars(line) {
            let t = trim_chars(line);
            if t[0] == '[' || find_char(t, '=').is_some() {
                assert(goal =~= rows@.map_values(|s: String| s@));
                return Ok(rows);
            }
            let row = string_of(strip_end_char(t, ','));
            proof {
                assert(rows@.push(row).map_values(|s: String| s@) =~= rows@.map_values(
                    |s: String| s@,
                ).push(row@));
                assert(rows@.map_values(|s: String| s@).push(row@) + spec_data_rows(ls, i + 1)
                    =~= rows@.map_values(|s: String| s@) + (seq![row@] + spec_data_rows(
                    ls,
                    i + 1,
                )));
            }
            rows.push(row);
        }
        i += 1;
    }
    assert(goal =~= rows@.map_values(|s: String| s@));
    Ok(rows)
}

/// Whether the first line of a file that is neither blank nor a comment is `APPEND`.
pub open spec fn spec_starts_with_append(lines: Seq<Seq<char>>, i: int) -> bool
    decreases lines.len() - i,
{
    if i < 0 || i >= lines.len() {
        false
    } else if spec_skip_line(spec_trim(lines[i])) {
        spec_starts_with_append(lines, i + 1)
    } else {
        spec_trim(lines[i]) == "APPEND"@
    }
}

/// Whether a file's content marks it as an overlay (`APPEND` on its first line
/// that holds anything).
pub fn starts_with_append(content: &str) -> (r: bool)
    ensures
        r == spec_starts_with_append(spec_lines(content@), 0),
{
    let lines = split_lines(content);
    let ghost ls = lines_view(lines@);
    let mut i: usize = 0;
    while i < lines.len()
        invariant
            ls == lines_view(lines@),
            ls == spec_lines(content@),
            i <= lines.len(),
            spec_starts_with_append(ls, 0) == spec_starts_with_append(ls, i as int),
        decreases lines.len() - i,
    {
        assert(ls[i as int] == lines@[i as int]@);
        let t = trim_chars(lines[i].as_slice());
        if !skip_line_chars(t) {
            return eq_str(t, "APPEND");
        }
        i += 1;
    }
    false
}

/// The index of the last file that is not an `APPEND` overlay, or 0.
pub open spec fn spec_base_index(appends: Seq<bool>) -> int
    decreases appends.len(),
{
    if appends.len() == 0 {
        0
    } else if !appends.last() {
        appends.len() - 1
    } else {
        spec_base_index(appends.drop_last())
    }
}

/// Among the versions of one file in ascending mod priority, where each one
/// starts with `APPEND` or not, the index of the version that the others are
/// laid upon: the last one that is not an overlay, or the first one.
pub fn select_base_index(appends: &[bool]) -> (r: usize)
    ensures
        r == spec_base_index(appends@),
        appends.len() > 0 ==> r < appends.len(),
{
    let mut i = appends.len();
    assert(appends@.take(i as int) =~= appends@);
    while i > 0
        invariant
            i <= appends.len(),
            spec_base_index(appends@) == spec_base_index(appends@.take(i as int)),
            forall|j: int| i <= j < appends.len() ==> appends@[j],
        decreases i,
    {
        assert(appends@.take(i as int).drop_last() =~= appends@.take(i - 1));
        if !appends[i - 1] {
            return i - 1;
        }
        i -= 1;
    }
    0
}

/// A mod-relative path with backslashes turned into slashes.
pub open spec fn spec_normalize_path(path: Seq<char>) -> Seq<char> {
    path.map_values(|c: char| if c == '\\' { '/' } else { c })
}

/// Turns backslashes into slashes.
pub fn normalize_path(path: &str) -> (r: String)
    ensures
        r@ == spec_normalize_path(path@),
{
    let cs = chars_of(path);
    let mut out: Vec<char> = Vec::new();
    let mut i: usize = 0;
    while i < cs.len()
        invariant
            i <= cs.len(),
            cs@ == path@,
            out@ == spec_normalize_path(cs@.take(i as int)),
        decreases cs.len() - i,
    {
        let c = cs[i];
        out.push(if c == '\\' { '/' } else { c });
        i += 1;
        assert(spec_normalize_path(cs@.take(i as int)) =~= spec_normalize_path(cs@.take(i - 1)).push(
            if c == '\\' { '/' } else { c },
        ));
    }
    assert(cs@.take(cs.len() as int) =~= cs@);
    string_of(&out)
}

/// The standard library's `std::path::PathBuf`, declared so that mod roots can
/// be held; nothing is read from or claimed about a path.
#[verifier::external_type_specification]
#[verifier::external_body]
pub struct ExPathBuf(PathBuf);

/// Mod roots in ascending priority (later roots override earlier ones).
#[derive(Debug, Clone, Default)]
pub struct FsResolver {
    pub roots: Vec<PathBuf>,
}

impl FsResolver {
    /// A resolver over the given mod roots, lowest priority first.
    pub fn new(roots: Vec<PathBuf>) -> (r: Self)
        ensures
            r.roots@ == roots@,
    {
        FsResolver { roots }
    }

    /// Adds a mod root above all others.
    pub fn push_root(&mut self, root: PathBuf)
        ensures
            final(self).roots@ == old(self).roots@.push(root),
    {
        self.roots.push(root);
    }
}

} // verus!

verus! {

/// The section that an entry read after `acc` belongs to: the section of the
/// last section header among `acc`, or the empty section before any header.
pub open spec fn open_section(acc: Seq<EntryV>) -> Seq<char>
    decreases acc.len(),
{
    if acc.len() == 0 {
        Seq::empty()
    } else if acc.last().new_section {
        acc.last().section
    } else {
        open_section(acc.drop_last())
    }
}

/// What the entry at `i` of a file's entries satisfies: a section header
/// carries no key or value; any other entry has a trimmed key and value and
/// belongs to the section opened last before it.
pub open spec fn entry_wf(es: Seq<EntryV>, i: int) -> bool {
    if es[i].new_section {
        es[i].key.len() == 0 && es[i].value.len() == 0
    } else {
        &&& spec_trim(es[i].key) == es[i].key
        &&& spec_trim(es[i].value) == es[i].value
        &&& es[i].section == open_section(es.take(i))
    }
}

/// The entries of a file: each well formed, in the order of their lines
/// (numbered from 1).
pub open spec fn entries_wf(es: Seq<EntryV>) -> bool {
    &&& forall|i: int| 0 <= i < es.len() ==> #[trigger] entry_wf(es, i)
    &&& forall|i: int| 0 <= i < es.len() ==> #[trigger] es[i].line >= 1
    &&& forall|i: int, j: int| 0 <= i < j < es.len() ==> #[trigger] es[i].line < #[trigger] es[j].line
}

proof fn lemma_push_wf(acc: Seq<EntryV>, e: EntryV, i: int)
    requires
        entries_wf(acc),
        forall|j: int| 0 <= j < acc.len() ==> #[trigger] acc[j].line <= i,
        e.line == i + 1,
        i >= 0,
        e.new_section ==> e.key.len() == 0 && e.value.len() == 0,
        !e.new_section ==> spec_trim(e.key) == e.key && spec_trim(e.value) == e.value && e.section
            == open_section(acc),
    ensures
        entries_wf(acc.push(e)),
        forall|j: int| 0 <= j < acc.push(e).len() ==> #[trigger] acc.push(e)[j].line <= i + 1,
{
    let es = acc.push(e);
    assert forall|j: int| 0 <= j < es.len() implies #[trigger] entry_wf(es, j) by {
        if j < acc.len() {
            assert(es.take(j) =~= acc.take(j));
            assert(entry_wf(acc, j));
        } else {
            assert(es.take(j) =~= acc);
        }
    }
    assert forall|a: int, b: int| 0 <= a < b < es.len() implies #[trigger] es[a].line < #[trigger] es[b].line by {
        if b < acc.len() {
            assert(acc[a].line < acc[b].line);
        } else {
            assert(acc[a].line <= i);
        }
    }
}

proof fn lemma_scan_wf(
    lines: Seq<Seq<char>>,
    source: Seq<char>,
    ancestors: Seq<Seq<char>>,
    i: int,
    section: Seq<char>,
    acc: Seq<EntryV>,
)
    requires
        i >= 0,
        lines.len() < usize::MAX,
        entries_wf(acc),
        section == open_section(acc),
        forall|j: int| 0 <= j < acc.len() ==> #[trigger] acc[j].line <= i,
    ensures
        spec_scan(lines, source, ancestors, i, section, acc) matches ScanV::Done(es, sec) ==> entries_wf(es)
            && sec == open_section(es),
        spec_scan(lines, source, ancestors, i, section, acc) matches ScanV::Include(es, sec, _p, _n)
            ==> entries_wf(es) && sec == open_section(es),
    decreases lines.len() - i,
{
    if i < lines.len() {
        match line_kind(lines[i]) {
            LineKind::Skip => {
                lemma_scan_wf(lines, source, ancestors, i + 1, section, acc);
            },
            LineKind::Section(title) => {
                let e = EntryV {
                    section: title,
                    key: Seq::empty(),
                    value: Seq::empty(),
                    line: (i + 1) as usize,
                    new_section: true,
                };
                assert(e.line == i + 1);
                lemma_push_wf(acc, e, i);
                assert(acc.push(e).drop_last() =~= acc);
                lemma_scan_wf(lines, source, ancestors, i + 1, title, acc.push(e));
            },
            LineKind::KeyValue(k, v) => {
                let t = spec_trim(lines[i]);
                let p = t.index_of_first('=').unwrap();
                crate::text::lemma_trim_idempotent(t.take(p));
                crate::text::lemma_trim_idempotent(t.skip(p + 1));
                let e = EntryV { section, key: k, value: v, line: (i + 1) as usize, new_section: false };
                assert(e.line == i + 1);
                lemma_push_wf(acc, e, i);
                assert(acc.push(e).drop_last() =~= acc);
                lemma_scan_wf(lines, source, ancestors, i + 1, section, acc.push(e));
            },
            _ => {},
        }
    }
}

/// Reading a file yields well-formed entries: section headers carry no key
/// or value; every other entry has its key and value trimmed and belongs to
/// the section of the last header before it, or to the empty section when
/// no header came before it; entries come in the order of their lines.
pub proof fn lemma_parsed_entries_wf(content: Seq<char>, source: Seq<char>)
    requires
        content.len() < usize::MAX,
    ensures
        spec_parse_str(content, source) matches Ok(es) ==> entries_wf(es),
{
    crate::text::lemma_lines_len(content);
    lemma_scan_wf(spec_lines(content), source, Seq::empty(), 0, Seq::empty(), Seq::empty());
}

} // verus!

verus! {

/// The version that the others are laid upon: every later version is an
/// `APPEND` overlay, and the chosen one is not an overlay unless all of them
/// are, in which case it is the first.
pub proof fn lemma_base_index(appends: Seq<bool>)
    requires
        appends.len() > 0,
    ensures
        0 <= spec_base_index(appends) < appends.len(),
        forall|j: int| spec_base_index(appends) < j < appends.len() ==> #[trigger] appends[j],
        appends[spec_base_index(appends)] ==> spec_base_index(appends) == 0 && forall|j: int|
            0 <= j < appends.len() ==> #[trigger] appends[j],
    decreases appends.len(),
{
    if appends.last() && appends.len() == 1 {
        assert(spec_base_index(appends.drop_last()) == 0);
    } else if appends.last() {
        let rest = appends.drop_last();
        lemma_base_index(rest);
        assert forall|j: int| spec_base_index(appends) < j < appends.len() implies #[trigger] appends[j] by {
            if j < rest.len() {
                assert(rest[j] == appends[j]);
            }
        }
        if appends[spec_base_index(appends)] {
            assert forall|j: int| 0 <= j < appends.len() implies #[trigger] appends[j] by {
                if j < rest.len() {
                    assert(rest[j] == appends[j]);
                }
            }
        }
    }
}

} // verus!

verus! {

/// Reading a file never hands out an `INCLUDE` of a file that is already
/// being read (the file itself or one that included it): that is reported as
/// a recursive include instead.
pub proof fn lemma_scan_includes_no_cycle(
    lines: Seq<Seq<char>>,
    source: Seq<char>,
    ancestors: Seq<Seq<char>>,
    i: int,
    section: Seq<char>,
    acc: Seq<EntryV>,
)
    ensures
        spec_scan(lines, source, ancestors, i, section, acc) matches ScanV::Include(_es, _sec, p, _n)
            ==> !include_cycles(p, source, ancestors),
        spec_scan(lines, source, ancestors, i, section, acc) matches ScanV::Failed(
            ErrorV::RecursiveInclude(p),
        ) ==> include_cycles(p, source, ancestors),
    decreases lines.len() - i,
{
    if 0 <= i < lines.len() {
        match line_kind(lines[i]) {
            LineKind::Skip => lemma_scan_includes_no_cycle(lines, source, ancestors, i + 1, section, acc),
            LineKind::Section(title) => lemma_scan_includes_no_cycle(
                lines,
                source,
                ancestors,
                i + 1,
                title,
                acc.push(
                    EntryV {
                        section: title,
                        key: Seq::empty(),
                        value: Seq::empty(),
                        line: (i + 1) as usize,
                        new_section: true,
                    },
                ),
            ),
            LineKind::KeyValue(k, v) => lemma_scan_includes_no_cycle(
                lines,
                source,
                ancestors,
                i + 1,
                section,
                acc.push(EntryV { section, key: k, value: v, line: (i + 1) as usize, new_section: false }),
            ),
            _ => {},
        }
    }
}

/// Entry `e` stands for its line among `lines` (numbered from 1): a section
/// entry for a `[section]` header of that name, any other for a
/// `key=value` line that splits into its key and value.
pub open spec fn entry_from_line(lines: Seq<Seq<char>>, e: EntryV) -> bool {
    &&& 1 <= e.line <= lines.len()
    &&& if e.new_section {
        &&& spec_trim(lines[e.line - 1])[0] == '['
        &&& spec_section_title(lines[e.line - 1]) == e.section
    } else {
        spec_split_key_value(lines[e.line - 1]) == Some((e.key, e.value))
    }
}

proof fn lemma_scan_from_lines(
    lines: Seq<Seq<char>>,
    source: Seq<char>,
    ancestors: Seq<Seq<char>>,
    i: int,
    section: Seq<char>,
    acc: Seq<EntryV>,
)
    requires
        lines.len() < usize::MAX,
        forall|j: int| 0 <= j < acc.len() ==> entry_from_line(lines, #[trigger] acc[j]),
    ensures
        match spec_scan(lines, source, ancestors, i, section, acc) {
            ScanV::Done(es, _) => forall|j: int| 0 <= j < es.len() ==> entry_from_line(lines, #[trigger] es[j]),
            ScanV::Include(es, _, _, _) => forall|j: int|
                0 <= j < es.len() ==> entry_from_line(lines, #[trigger] es[j]),
            ScanV::Failed(_) => true,
        },
    decreases lines.len() - i,
{
    if !(i < 0 || i >= lines.len()) {
        let l = lines[i];
        match line_kind(l) {
            LineKind::Skip => lemma_scan_from_lines(lines, source, ancestors, i + 1, section, acc),
            LineKind::Section(title) => {
                let e = EntryV { section: title, key: Seq::empty(), value: Seq::empty(), line: (i + 1) as usize, new_section: true };
                assert(entry_from_line(lines, e));
                let acc2 = acc.push(e);
                assert forall|j: int| 0 <= j < acc2.len() implies entry_from_line(lines, #[trigger] acc2[j]) by {
                    if j < acc.len() {
                        assert(acc2[j] == acc[j]);
                    }
                }
                lemma_scan_from_lines(lines, source, ancestors, i + 1, title, acc2);
            },
            LineKind::Include(_) => {},
            LineKind::KeyValue(k, v) => {
                let e = EntryV { section, key: k, value: v, line: (i + 1) as usize, new_section: false };
                assert(entry_from_line(lines, e));
                let acc2 = acc.push(e);
                assert forall|j: int| 0 <= j < acc2.len() implies entry_from_line(lines, #[trigger] acc2[j]) by {
                    if j < acc.len() {
                        assert(acc2[j] == acc[j]);
                    }
                }
                lemma_scan_from_lines(lines, source, ancestors, i + 1, section, acc2);
            },
            LineKind::Malformed => {},
        }
    }
}

/// Every entry read from a file stands for its own line: a section entry
/// for a `[section]` header of that name, a key/value entry for a line that
/// splits at its first `=` into that key and that value.
pub proof fn lemma_entries_from_lines(content: Seq<char>, source: Seq<char>)
    requires
        content.len() < usize::MAX,
    ensures
        spec_parse_str(content, source) matches Ok(es) ==> forall|j: int|
            0 <= j < es.len() ==> entry_from_line(spec_lines(content), #[trigger] es[j]),
{
    crate::text::lemma_lines_len(content);
    lemma_scan_from_lines(spec_lines(content), source, Seq::empty(), 0, Seq::empty(), Seq::empty());
}

} // verus!
