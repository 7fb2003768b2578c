//! The fact-file protocol: texts of `key=value` lines, and the manifests of
//! Java archives.

use crate::entries::{Entries, map_of};
use crate::text::{
    chars_of, clean, clean_bounds, decoded, find_char, first_index, is_quote, is_space, join_path,
    leading, lemma_first_index_is, lemma_leading, lemma_trailing, lines, lines_of, path_join,
    push_text, rows, split, split_once, split_text, string_of, strip_cr, substring, text_view, texts, trim,
    trim_bounds, utf8_text,
};
use vstd::prelude::*;

verus! {

/// What one line of a `key=value` text adds to a mapping: where the line
/// holds `=`, the trimmed text before the first `=` gets as its value the text
/// after it, trimmed and unquoted. Any other line adds nothing.
pub open spec fn record_line(m: Map<Seq<char>, Seq<char>>, line: Seq<char>) -> Map<
    Seq<char>,
    Seq<char>,
> {
    match split_once(line, '=') {
        Some((key, value)) => m.insert(trim(key), clean(value)),
        None => m,
    }
}

/// What the lines `ls`, taken in order, add to a mapping.
pub open spec fn record_lines(m: Map<Seq<char>, Seq<char>>, ls: Seq<Seq<char>>) -> Map<
    Seq<char>,
    Seq<char>,
>
    decreases ls.len(),
{
    if ls.len() == 0 {
        m
    } else {
        record_lines(record_line(m, ls[0]), ls.drop_first())
    }
}

/// The mapping that a `key=value` text holds. Where a key stands on several
/// lines, the last of them counts.
pub open spec fn key_value_entries(content: Seq<char>) -> Map<Seq<char>, Seq<char>> {
    record_lines(Map::empty(), lines(content))
}

/// The line that is written for one entry.
pub open spec fn entry_line(entry: (Seq<char>, Seq<char>)) -> Seq<char> {
    entry.0 + seq!['='] + entry.1 + seq!['\n']
}

/// The text that is written for a sequence of entries: their lines, in
/// order.
pub open spec fn render_pairs(pairs: Seq<(Seq<char>, Seq<char>)>) -> Seq<char>
    decreases pairs.len(),
{
    if pairs.len() == 0 {
        Seq::empty()
    } else {
        entry_line(pairs[0]) + render_pairs(pairs.drop_first())
    }
}

/// Reads the content of a `key=value` file.
pub fn read_key_value_file(content: &str) -> (out: Entries)
    ensures
        out@ == key_value_entries(content@),
{
    let chars = chars_of(content);
    let ls = lines_of(&chars);
    let mut out = Entries::new();
    let mut i: usize = 0;
    assert(lines(content@).skip(0) =~= lines(content@));
    while i < ls.len()
        invariant
            i <= ls@.len(),
            rows(ls@) == lines(content@),
            record_lines(out@, lines(content@).skip(i as int)) == key_value_entries(content@),
        decreases ls.len() - i,
    {
        let line = &ls[i];
        let ghost rest = lines(content@).skip(i as int);
        assert(rest[0] == line@);
        assert(rest.drop_first() =~= lines(content@).skip(i + 1));
        let at = find_char(line, '=', 0);
        assert(line@.skip(0) =~= line@);
        if at < line.len() {
            let (ka, kb) = trim_bounds(line, 0, at);
            let (va, vb) = clean_bounds(line, at + 1, line.len());
            let key = substring(line, ka, kb);
            let value = substring(line, va, vb);
            out.insert(key, value);
        }
        i += 1;
    }
    out
}

/// The text written for `entries`: one line `key=value` for each entry, in
/// the order of the keys.
pub fn render_entries(entries: &Entries) -> (out: String)
    ensures
        out@ == render_pairs(entries.pairs()),
{
    let mut out = String::new();
    let n = entries.len();
    let mut i: usize = 0;
    assert(entries.pairs().skip(0) =~= entries.pairs());
    assert(render_pairs(entries.pairs()) =~= out@ + render_pairs(entries.pairs()));
    while i < n
        invariant
            i <= n,
            n == entries.pairs().len(),
            out@ + render_pairs(entries.pairs().skip(i as int)) == render_pairs(entries.pairs()),
        decreases n - i,
    {
        let ghost before = out@;
        let ghost rest = entries.pairs().skip(i as int);
        let key = entries.key_at(i);
        let value = entries.value_at(i);
        push_text(&mut out, key.as_str());
        out.push('=');
        push_text(&mut out, value.as_str());
        out.push('\n');
        proof {
            assert(rest[0] == entries.pairs()[i as int]);
            assert(rest.drop_first() =~= entries.pairs().skip(i + 1));
            assert(out@ =~= before + entry_line(rest[0]));
            assert(out@ + render_pairs(rest.drop_first()) =~= before + render_pairs(rest));
        }
        i += 1;
    }
    assert(render_pairs(entries.pairs().skip(i as int)) =~= Seq::<char>::empty());
    assert(out@ + Seq::<char>::empty() =~= out@);
    out
}

/// A key that comes back as it was written: it holds neither `=` nor a line
/// feed and has no white space at its ends.
pub open spec fn plain_key(key: Seq<char>) -> bool {
    !key.contains('=') && !key.contains('\n') && trim(key) == key
}

/// A value that comes back as it was written: it holds no line feed and has
/// neither white space nor double quotes at its ends.
pub open spec fn plain_value(value: Seq<char>) -> bool {
    !value.contains('\n') && clean(value) == value
}

/// Whether every key and every value of `pairs` comes back as it was
/// written.
pub open spec fn plain_pairs(pairs: Seq<(Seq<char>, Seq<char>)>) -> bool {
    forall|i: int|
        0 <= i < pairs.len() ==> plain_key((#[trigger] pairs[i]).0) && plain_value(pairs[i].1)
}

/// The mapping `m` after each pair of `pairs` was put in, in order.
spec fn insert_all(m: Map<Seq<char>, Seq<char>>, pairs: Seq<(Seq<char>, Seq<char>)>) -> Map<
    Seq<char>,
    Seq<char>,
>
    decreases pairs.len(),
{
    if pairs.len() == 0 {
        m
    } else {
        insert_all(m.insert(pairs[0].0, pairs[0].1), pairs.drop_first())
    }
}

proof fn lemma_insert_all_push(
    m: Map<Seq<char>, Seq<char>>,
    pairs: Seq<(Seq<char>, Seq<char>)>,
    entry: (Seq<char>, Seq<char>),
)
    ensures
        insert_all(m, pairs.push(entry)) == insert_all(m, pairs).insert(entry.0, entry.1),
    decreases pairs.len(),
{
    let all = pairs.push(entry);
    if pairs.len() == 0 {
        assert(all.drop_first() =~= pairs);
        assert(insert_all(m.insert(entry.0, entry.1), pairs) == m.insert(entry.0, entry.1));
        assert(insert_all(m, all) == insert_all(m.insert(all[0].0, all[0].1), all.drop_first()));
    } else {
        assert(all[0] == pairs[0]);
        assert(all.drop_first() =~= pairs.drop_first().push(entry));
        lemma_insert_all_push(m.insert(pairs[0].0, pairs[0].1), pairs.drop_first(), entry);
    }
}

proof fn lemma_insert_all_is_map_of(pairs: Seq<(Seq<char>, Seq<char>)>)
    ensures
        insert_all(Map::empty(), pairs) == map_of(pairs),
    decreases pairs.len(),
{
    if pairs.len() > 0 {
        lemma_insert_all_is_map_of(pairs.drop_last());
        lemma_insert_all_push(Map::empty(), pairs.drop_last(), pairs.last());
        assert(pairs.drop_last().push(pairs.last()) =~= pairs);
    }
}

/// A text without white space at its ends does not end in white space.
proof fn lemma_clean_value_end(value: Seq<char>)
    requires
        clean(value) == value,
        value.len() > 0,
    ensures
        !is_space(value.last()),
{
    let space = |c: char| is_space(c);
    let quote = |c: char| is_quote(c);
    lemma_leading(value, space);
    let rest = value.skip(leading(value, space));
    lemma_trailing(rest, space);
    let trimmed = trim(value);
    lemma_leading(trimmed, quote);
    lemma_trailing(trimmed.skip(leading(trimmed, quote)), quote);
    assert(trimmed.len() == value.len());
    assert(rest =~= value);
}

/// The lines of a text that begins with a line: that line, and the lines of
/// what follows its line feed.
proof fn lemma_lines_of_first(line: Seq<char>, rest: Seq<char>)
    requires
        !line.contains('\n'),
    ensures
        lines(line + seq!['\n'] + rest) == seq![strip_cr(line)] + lines(rest),
{
    let s = line + seq!['\n'] + rest;
    let at = line.len() as int;
    assert forall|k: int| 0 <= k < at implies s[k] != '\n' by {
        assert(s[k] == line[k]);
    }
    assert(s[at] == '\n');
    lemma_first_index_is(s, '\n', at);
    assert(s.take(at) =~= line);
    assert(s.skip(at + 1) =~= rest);
}

/// What the line written for a plain entry adds to a mapping when it is
/// read: the entry.
proof fn lemma_record_entry_line(m: Map<Seq<char>, Seq<char>>, entry: (Seq<char>, Seq<char>))
    requires
        plain_key(entry.0),
        plain_value(entry.1),
    ensures
        ({
            let line = entry.0 + seq!['='] + entry.1;
            &&& !line.contains('\n')
            &&& strip_cr(line) == line
            &&& record_line(m, line) == m.insert(entry.0, entry.1)
        }),
{
    let key = entry.0;
    let value = entry.1;
    let line = key + seq!['='] + value;
    let at = key.len() as int;
    assert forall|k: int| 0 <= k < line.len() implies line[k] != '\n' by {
        if k < at {
            assert(line[k] == key[k]);
        } else if k > at {
            assert(line[k] == value[k - at - 1]);
        }
    }
    assert forall|k: int| 0 <= k < at implies line[k] != '=' by {
        assert(line[k] == key[k]);
    }
    lemma_first_index_is(line, '=', at);
    assert(line.take(at) =~= key);
    assert(line.skip(at + 1) =~= value);
    if value.len() > 0 {
        lemma_clean_value_end(value);
        assert(line.last() == value.last());
    }
}

proof fn lemma_read_written(m: Map<Seq<char>, Seq<char>>, pairs: Seq<(Seq<char>, Seq<char>)>)
    requires
        plain_pairs(pairs),
    ensures
        record_lines(m, lines(render_pairs(pairs))) == insert_all(m, pairs),
    decreases pairs.len(),
{
    if pairs.len() > 0 {
        let entry = pairs[0];
        let rest = pairs.drop_first();
        let line = entry.0 + seq!['='] + entry.1;
        assert forall|i: int| 0 <= i < rest.len() implies plain_key((#[trigger] rest[i]).0)
            && plain_value(rest[i].1) by {
            assert(rest[i] == pairs[i + 1]);
        }
        lemma_record_entry_line(m, entry);
        lemma_lines_of_first(line, render_pairs(rest));
        assert(render_pairs(pairs) =~= line + seq!['\n'] + render_pairs(rest));
        let ls = lines(render_pairs(pairs));
        assert(ls[0] == line);
        assert(ls.drop_first() =~= lines(render_pairs(rest)));
        lemma_read_written(m.insert(entry.0, entry.1), rest);
    }
}

/// Written and then read, a mapping comes back as it was, whatever the order
/// in which its entries were put in: provided that every key and every value
/// is plain.
pub proof fn lemma_write_then_read(entries: Entries)
    requires
        plain_pairs(entries.pairs()),
    ensures
        key_value_entries(render_pairs(entries.pairs())) == entries@,
{
    lemma_read_written(Map::empty(), entries.pairs());
    lemma_insert_all_is_map_of(entries.pairs());
}

/// Why a manifest could not be read.
#[derive(Clone, Copy, Debug, PartialEq, Eq, Structural)]
pub enum ManifestError {
    /// A line that continues a value stands before the first attribute.
    ContinuationWithoutKey,
    /// The manifest is not UTF-8 text.
    NotText,
}

/// Whether `line` begins an attribute: it does not begin with a space, and
/// it holds a colon.
pub open spec fn is_key_line(line: Seq<char>) -> bool {
    !(line.len() > 0 && line[0] == ' ') && first_index(line, ':') < line.len()
}

/// What one line adds to what was read of a manifest, which is its
/// attributes and the name of the last attribute that a line began. A line
/// that begins an attribute gives the trimmed text before its first colon, as
/// the name, the text after it, trimmed and unquoted. Any other line continues
/// the value of the last attribute with its own text, trimmed and unquoted: it
/// never begins an attribute. There is no result where there is nothing to
/// continue.
pub open spec fn manifest_line(
    read: (Map<Seq<char>, Seq<char>>, Option<Seq<char>>),
    line: Seq<char>,
) -> Option<(Map<Seq<char>, Seq<char>>, Option<Seq<char>>)> {
    if is_key_line(line) {
        let at = first_index(line, ':');
        let key = trim(line.take(at));
        Some((read.0.insert(key, clean(line.skip(at + 1))), Some(key)))
    } else {
        match read.1 {
            Some(key) => Some((read.0.insert(key, read.0[key] + clean(line)), Some(key))),
            None => None,
        }
    }
}

/// What the lines `ls`, taken in order, add to what was read of a manifest.
pub open spec fn manifest_lines(
    read: (Map<Seq<char>, Seq<char>>, Option<Seq<char>>),
    ls: Seq<Seq<char>>,
) -> Option<(Map<Seq<char>, Seq<char>>, Option<Seq<char>>)>
    decreases ls.len(),
{
    if ls.len() == 0 {
        Some(read)
    } else {
        match manifest_line(read, ls[0]) {
            Some(next) => manifest_lines(next, ls.drop_first()),
            None => None,
        }
    }
}

/// The attributes of a manifest, or nothing where a line continues a value
/// before any attribute began.
pub open spec fn manifest_entries(content: Seq<char>) -> Option<Map<Seq<char>, Seq<char>>> {
    match manifest_lines((Map::empty(), None), lines(content)) {
        Some(read) => Some(read.0),
        None => None,
    }
}

/// Reads the content of the manifest of a Java archive.
pub fn read_jar_manifest_content(manifest_content: &str) -> (r: Result<Entries, ManifestError>)
    ensures
        match r {
            Ok(entries) => manifest_entries(manifest_content@) == Some(entries@),
            Err(e) => e == ManifestError::ContinuationWithoutKey && manifest_entries(
                manifest_content@,
            ) is None,
        },
{
    let chars = chars_of(manifest_content);
    let ls = lines_of(&chars);
    let mut out = Entries::new();
    let mut current: Option<String> = None;
    let mut i: usize = 0;
    let ghost all = lines(manifest_content@);
    assert(all.skip(0) =~= all);
    while i < ls.len()
        invariant
            i <= ls@.len(),
            rows(ls@) == all,
            all == lines(manifest_content@),
            current matches Some(key) ==> out@.contains_key(key@),
            manifest_lines((out@, text_view(current)), all.skip(i as int)) == manifest_lines(
                (Map::empty(), None),
                all,
            ),
        decreases ls.len() - i,
    {
        let line = &ls[i];
        let ghost rest = all.skip(i as int);
        assert(rest[0] == line@);
        assert(rest.drop_first() =~= all.skip(i + 1));
        let at = find_char(line, ':', 0);
        assert(line@.skip(0) =~= line@);
        if at < line.len() && line[0] != ' ' {
            let (ka, kb) = trim_bounds(line, 0, at);
            let (va, vb) = clean_bounds(line, at + 1, line.len());
            let key = substring(line, ka, kb);
            let value = substring(line, va, vb);
            out.insert(key.clone(), value);
            current = Some(key);
        } else {
            match &current {
                Some(key) => {
                    let (va, vb) = clean_bounds(line, 0, line.len());
                    assert(line@.subrange(0, line@.len() as int) =~= line@);
                    let mut value = match out.get(key.as_str()) {
                        Some(old) => old.clone(),
                        None => String::new(),
                    };
                    let more = substring(line, va, vb);
                    push_text(&mut value, more.as_str());
                    out.insert(key.clone(), value);
                },
                None => {
                    return Err(ManifestError::ContinuationWithoutKey);
                },
            }
        }
        i += 1;
    }
    Ok(out)
}

/// A fact file: its name and its content.
#[derive(Debug, PartialEq, Eq)]
pub struct FactFile {
    pub name: String,
    pub content: String,
}

impl Clone for FactFile {
    fn clone(&self) -> (out: Self)
        ensures
            out == *self,
    {
        FactFile { name: self.name.clone(), content: self.content.clone() }
    }
}

/// The file to write for `entries` under the name `file_name`: its content
/// is one line for each entry, in the order of the keys. There is no file to
/// write where there is no entry.
pub fn write_entries(file_name: &str, entries: &Entries) -> (r: Option<FactFile>)
    ensures
        match r {
            Some(file) => entries.pairs().len() > 0 && file.name@ == file_name@ && file.content@
                == render_pairs(entries.pairs()),
            None => entries.pairs().len() == 0,
        },
{
    if entries.is_empty() {
        None
    } else {
        Some(FactFile { name: file_name.to_owned(), content: render_entries(entries) })
    }
}

/// The file to write for the fingerprints `entries` of the kind `prefix`:
/// its name is the prefix and `-fingerprints.txt`. There is no file to write
/// where there is no entry or where the prefix is empty.
pub fn write_fingerprint(prefix: &str, entries: &Entries) -> (r: Option<FactFile>)
    ensures
        match r {
            Some(file) => entries.pairs().len() > 0 && prefix@.len() > 0 && file.name@ == prefix@
                + "-fingerprints.txt"@ && file.content@ == render_pairs(entries.pairs()),
            None => entries.pairs().len() == 0 || prefix@.len() == 0,
        },
{
    if entries.is_empty() || prefix.is_empty() {
        None
    } else {
        let mut name = prefix.to_owned();
        push_text(&mut name, "-fingerprints.txt");
        Some(FactFile { name, content: render_entries(entries) })
    }
}

/// Why an executable told no version.
#[derive(Clone, Copy, Debug, PartialEq, Eq, Structural)]
pub enum VersionError {
    /// The command did not succeed.
    CommandFailed,
    /// What the command printed is not UTF-8 text.
    NoOutput,
}

/// The version that an executable told when it was run with `--version`:
/// what it printed, without white space at the ends, where it succeeded and
/// printed UTF-8 text.
pub open spec fn version_output(succeeded: bool, printed: Seq<u8>) -> Result<
    Seq<char>,
    VersionError,
> {
    if !succeeded {
        Err(VersionError::CommandFailed)
    } else {
        match decoded(printed) {
            Some(text) => Ok(trim(text)),
            None => Err(VersionError::NoOutput),
        }
    }
}

/// The version that an executable told when it was run with `--version`,
/// from whether it succeeded and what it printed.
pub fn get_executable_version_output(succeeded: bool, printed: &[u8]) -> (r: Result<
    String,
    VersionError,
>)
    ensures
        match r {
            Ok(version) => version_output(succeeded, printed@) == Ok::<Seq<char>, VersionError>(
                version@,
            ),
            Err(e) => version_output(succeeded, printed@) == Err::<Seq<char>, VersionError>(e),
        },
{
    if !succeeded {
        return Err(VersionError::CommandFailed);
    }
    match utf8_text(printed) {
        Some(text) => {
            let chars = chars_of(text);
            let (a, b) = trim_bounds(&chars, 0, chars.len());
            assert(chars@.subrange(0, chars@.len() as int) =~= chars@);
            Ok(substring(&chars, a, b))
        },
        None => Err(VersionError::NoOutput),
    }
}

/// The places where an executable is looked for: below each directory of
/// the search path, whose directories stand between colons, in their order.
pub open spec fn executable_candidates(executable_name: Seq<char>, path_var: Seq<char>) -> Seq<
    Seq<char>,
> {
    split(path_var, ':').map_values(|dir: Seq<char>| path_join(dir, executable_name))
}

/// The places where `executable_name` is looked for along the search path
/// `path_var`, in the order of the search: the first of them that is a file is
/// the executable.
pub fn find_executable_in_path(executable_name: &str, path_var: &str) -> (out: Vec<String>)
    ensures
        texts(out@) == executable_candidates(executable_name@, path_var@),
{
    let dirs = split_text(&chars_of(path_var), ':');
    let mut out: Vec<String> = Vec::new();
    let mut i: usize = 0;
    let ghost wanted = executable_candidates(executable_name@, path_var@);
    while i < dirs.len()
        invariant
            i <= dirs@.len(),
            out@.len() == i,
            rows(dirs@) == split(path_var@, ':'),
            wanted == executable_candidates(executable_name@, path_var@),
            texts(out@) == wanted.take(i as int),
        decreases dirs.len() - i,
    {
        let dir = string_of(&dirs[i]);
        out.push(join_path(dir.as_str(), executable_name));
        assert(texts(out@) =~= wanted.take(i + 1));
        i += 1;
    }
    assert(wanted.take(i as int) =~= wanted);
    out
}

/// A line that begins with a space never begins an attribute: it adds its
/// text to the value of the attribute that the last line began, and no name
/// that the manifest did not have already.
pub proof fn lemma_continuation_begins_no_key(
    read: (Map<Seq<char>, Seq<char>>, Option<Seq<char>>),
    line: Seq<char>,
)
    requires
        line.len() > 0,
        line[0] == ' ',
        read.1 is Some,
        read.0.contains_key(read.1->0),
    ensures
        manifest_line(read, line) == Some(
            (read.0.insert(read.1->0, read.0[read.1->0] + clean(line)), read.1),
        ),
        ({
            let after = manifest_line(read, line)->0;
            after.0.dom() == read.0.dom()
        }),
{
    let key = read.1->0;
    assert(read.0.insert(key, read.0[key] + clean(line)).dom() =~= read.0.dom());
}

} // verus!
