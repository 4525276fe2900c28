//! The manifest of a layered jar: the two properties that name the archive
//! members holding the layer index and the classpath index.

use crate::archive::{
    archive_names, manifest_lines, member_lines, member_opens, members_of, Archive, MANIFEST_MEMBER,
};
use crate::text::{
    after_first, chars_of, find_from, lemma_after_first_absent, lemma_after_first_found, lines,
    opt_text, skip_whitespace, slice_of, split_lines, starts_with, texts, trim_start,
};
use vstd::prelude::*;

verus! {

/// The property that names the layer index.
pub const PROP_LAYERS_INDEX: &'static str = "Spring-Boot-Layers-Index";

/// The property that names the classpath index.
pub const PROP_CLASSPATH_INDEX: &'static str = "Spring-Boot-Classpath-Index";

/// The index member names that a jar's manifest declares.
#[derive(Debug, Clone, PartialEq)]
pub struct JarManifest {
    pub layers_index: String,
    pub classpath_index: String,
}

/// What a `JarManifest` holds, as sequences of characters.
pub struct ManifestModel {
    pub layers_index: Seq<char>,
    pub classpath_index: Seq<char>,
}

impl View for JarManifest {
    type V = ManifestModel;

    open spec fn view(&self) -> ManifestModel {
        ManifestModel { layers_index: self.layers_index@, classpath_index: self.classpath_index@ }
    }
}

/// Why no `JarManifest` could be had.
#[derive(Debug, Clone, Copy, PartialEq, Eq)]
pub enum ManifestError {
    /// The archive has no manifest member that can be opened.
    MissingManifest,
    /// No line gave `Spring-Boot-Layers-Index` a value.
    MissingLayersIndex,
    /// No line gave `Spring-Boot-Classpath-Index` a value.
    MissingClasspathIndex,
}

/// The values recorded so far while the lines are scanned.
pub struct Found {
    pub layers: Option<Seq<char>>,
    pub classpath: Option<Seq<char>>,
}

/// Whether `line` begins with the layer index property.
pub open spec fn is_layers_line(line: Seq<char>) -> bool {
    PROP_LAYERS_INDEX@.is_prefix_of(line)
}

/// Whether `line` begins with the classpath index property.
pub open spec fn is_classpath_line(line: Seq<char>) -> bool {
    PROP_CLASSPATH_INDEX@.is_prefix_of(line)
}

/// The value that `line` gives: what follows its first colon, without
/// leading whitespace. A line without a colon gives none.
pub open spec fn property_value(line: Seq<char>) -> Option<Seq<char>> {
    match after_first(line, ':') {
        Some(rest) => Some(trim_start(rest)),
        None => None,
    }
}

/// `found` after `line` was read: a property line replaces what was
/// recorded for its property, any other line changes nothing.
pub open spec fn record(found: Found, line: Seq<char>) -> Found {
    if is_layers_line(line) {
        Found { layers: property_value(line), classpath: found.classpath }
    } else if is_classpath_line(line) {
        Found { layers: found.layers, classpath: property_value(line) }
    } else {
        found
    }
}

/// Whether both properties have a value.
pub open spec fn complete(found: Found) -> bool {
    found.layers is Some && found.classpath is Some
}

/// `found` after `lines` were read in order, stopping behind the first line
/// that makes it complete.
pub open spec fn scan(lines: Seq<Seq<char>>, found: Found) -> Found
    decreases lines.len(),
{
    if lines.len() == 0 {
        found
    } else {
        let next = record(found, lines[0]);
        if complete(next) {
            next
        } else {
            scan(lines.skip(1), next)
        }
    }
}

/// The manifest that `lines` declare, or the property that they lack. Where
/// both are lacking, the layer index is reported.
pub open spec fn parse(lines: Seq<Seq<char>>) -> Result<ManifestModel, ManifestError> {
    let found = scan(lines, Found { layers: None, classpath: None });
    match (found.layers, found.classpath) {
        (Some(layers_index), Some(classpath_index)) => Ok(
            ManifestModel { layers_index, classpath_index },
        ),
        (Some(_), None) => Err(ManifestError::MissingClasspathIndex),
        (None, _) => Err(ManifestError::MissingLayersIndex),
    }
}

/// Whether `r` is the outcome `expected`, up to the view of the manifest.
pub open spec fn is_outcome(
    r: Result<JarManifest, ManifestError>,
    expected: Result<ManifestModel, ManifestError>,
) -> bool {
    match r {
        Ok(manifest) => expected == Ok::<ManifestModel, ManifestError>(manifest@),
        Err(e) => expected == Err::<ManifestModel, ManifestError>(e),
    }
}

/// The manifest that the jar `archive` declares: what the lines of its
/// manifest member declare, and `MissingManifest` where the archive does not
/// open that member.
pub open spec fn manifest_of(archive: Archive) -> Result<ManifestModel, ManifestError> {
    if member_opens(archive, MANIFEST_MEMBER@) {
        parse(member_lines(archive, MANIFEST_MEMBER@))
    } else {
        Err(ManifestError::MissingManifest)
    }
}

/// No line begins with both properties.
pub proof fn lemma_properties_exclude(line: Seq<char>)
    ensures
        !(is_layers_line(line) && is_classpath_line(line)),
{
    reveal_strlit("Spring-Boot-Layers-Index");
    reveal_strlit("Spring-Boot-Classpath-Index");
    if is_layers_line(line) && is_classpath_line(line) {
        let layers = PROP_LAYERS_INDEX@;
        let classpath = PROP_CLASSPATH_INDEX@;
        assert(line.subrange(0, layers.len() as int)[12] == layers[12]);
        assert(line.subrange(0, classpath.len() as int)[12] == classpath[12]);
    }
}

/// Lines that begin with neither property are passed over.
proof fn lemma_scan_passes(lines: Seq<Seq<char>>, found: Found, n: int)
    requires
        0 <= n <= lines.len(),
        !complete(found),
        forall|k: int| 0 <= k < n ==> !is_layers_line(lines[k]) && !is_classpath_line(lines[k]),
    ensures
        scan(lines, found) == scan(lines.skip(n), found),
    decreases n,
{
    if n > 0 {
        lemma_scan_passes(lines.skip(1), found, n - 1);
        assert(lines.skip(1).skip(n - 1) =~= lines.skip(n));
    } else {
        assert(lines.skip(0) =~= lines);
    }
}

/// Without a line for the layer index, none is found.
proof fn lemma_scan_without_layers(lines: Seq<Seq<char>>, found: Found)
    requires
        found.layers is None,
        forall|k: int| 0 <= k < lines.len() ==> !is_layers_line(lines[k]),
    ensures
        scan(lines, found).layers is None,
    decreases lines.len(),
{
    if lines.len() > 0 {
        lemma_scan_without_layers(lines.skip(1), record(found, lines[0]));
    }
}

/// Without a line for the classpath index, none is found.
proof fn lemma_scan_without_classpath(lines: Seq<Seq<char>>, found: Found)
    requires
        found.classpath is None,
        forall|k: int| 0 <= k < lines.len() ==> !is_classpath_line(lines[k]),
    ensures
        scan(lines, found).classpath is None,
    decreases lines.len(),
{
    if lines.len() > 0 {
        lemma_scan_without_classpath(lines.skip(1), record(found, lines[0]));
    }
}

/// Where one line gives the layer index a value, another gives the classpath
/// index a value, in either order, and every other line begins with neither
/// property, the manifest holds exactly those two values: what follows the
/// first colon of each line, without leading whitespace.
pub proof fn lemma_parse_finds_both(lines: Seq<Seq<char>>, layers_at: int, classpath_at: int)
    requires
        0 <= layers_at < lines.len(),
        0 <= classpath_at < lines.len(),
        is_layers_line(lines[layers_at]),
        is_classpath_line(lines[classpath_at]),
        property_value(lines[layers_at]) is Some,
        property_value(lines[classpath_at]) is Some,
        forall|k: int|
            0 <= k < lines.len() && k != layers_at && k != classpath_at ==> !is_layers_line(
                lines[k],
            ) && !is_classpath_line(lines[k]),
    ensures
        parse(lines) == Ok::<ManifestModel, ManifestError>(
            ManifestModel {
                layers_index: property_value(lines[layers_at])->0,
                classpath_index: property_value(lines[classpath_at])->0,
            },
        ),
{
    lemma_properties_exclude(lines[layers_at]);
    lemma_properties_exclude(lines[classpath_at]);
    let first = if layers_at < classpath_at {
        layers_at
    } else {
        classpath_at
    };
    let second = if layers_at < classpath_at {
        classpath_at
    } else {
        layers_at
    };
    let start = Found { layers: None, classpath: None };
    lemma_scan_passes(lines, start, first);
    let from_first = lines.skip(first);
    assert(from_first[0] == lines[first]);
    let middle = record(start, lines[first]);
    assert(scan(from_first, start) == scan(from_first.skip(1), middle));
    let behind_first = from_first.skip(1);
    assert forall|k: int| 0 <= k < second - first - 1 implies !is_layers_line(behind_first[k])
        && !is_classpath_line(behind_first[k]) by {
        assert(behind_first[k] == lines[first + 1 + k]);
    }
    lemma_scan_passes(behind_first, middle, second - first - 1);
    let from_second = behind_first.skip(second - first - 1);
    assert(from_second[0] == lines[second]);
}

/// A line that begins with neither property changes nothing, wherever it
/// stands among the lines.
pub proof fn lemma_parse_skips_line(lines: Seq<Seq<char>>, at: int, extra: Seq<char>)
    requires
        0 <= at <= lines.len(),
        !is_layers_line(extra),
        !is_classpath_line(extra),
    ensures
        parse(lines.insert(at, extra)) == parse(lines),
{
    lemma_scan_skips_line(lines, Found { layers: None, classpath: None }, at, extra);
}

/// A scan that is not complete yet passes over a line that begins with
/// neither property, wherever it stands among the lines.
proof fn lemma_scan_skips_line(lines: Seq<Seq<char>>, found: Found, at: int, extra: Seq<char>)
    requires
        0 <= at <= lines.len(),
        !complete(found),
        !is_layers_line(extra),
        !is_classpath_line(extra),
    ensures
        scan(lines.insert(at, extra), found) == scan(lines, found),
    decreases at,
{
    let longer = lines.insert(at, extra);
    if at == 0 {
        assert(longer[0] == extra);
        assert(longer.skip(1) =~= lines);
    } else {
        assert(longer[0] == lines[0]);
        assert(longer.skip(1) =~= lines.skip(1).insert(at - 1, extra));
        let next = record(found, lines[0]);
        if !complete(next) {
            lemma_scan_skips_line(lines.skip(1), next, at - 1, extra);
        }
    }
}

/// Whether every line of `lines` that begins with one of the properties
/// gives it a value.
pub open spec fn properties_have_values(lines: Seq<Seq<char>>) -> bool {
    forall|k: int|
        0 <= k < lines.len() && (is_layers_line(#[trigger] lines[k]) || is_classpath_line(
            lines[k],
        )) ==> property_value(lines[k]) is Some
}

/// Whether some line of `lines` begins with the layer index property.
pub open spec fn has_layers_line(lines: Seq<Seq<char>>) -> bool {
    exists|k: int| 0 <= k < lines.len() && is_layers_line(#[trigger] lines[k])
}

/// Whether some line of `lines` begins with the classpath index property.
pub open spec fn has_classpath_line(lines: Seq<Seq<char>>) -> bool {
    exists|k: int| 0 <= k < lines.len() && is_classpath_line(#[trigger] lines[k])
}

/// Where every property line gives a value, a scan ends with a value for a
/// property exactly where it began with one or a line begins with the
/// property.
proof fn lemma_scan_finds(lines: Seq<Seq<char>>, found: Found)
    requires
        properties_have_values(lines),
    ensures
        scan(lines, found).layers is Some <==> found.layers is Some || has_layers_line(lines),
        scan(lines, found).classpath is Some <==> found.classpath is Some || has_classpath_line(
            lines,
        ),
    decreases lines.len(),
{
    if lines.len() > 0 {
        let rest = lines.skip(1);
        let next = record(found, lines[0]);
        lemma_properties_exclude(lines[0]);
        assert(properties_have_values(rest)) by {
            assert forall|k: int|
                0 <= k < rest.len() && (is_layers_line(#[trigger] rest[k]) || is_classpath_line(
                    rest[k],
                )) implies property_value(rest[k]) is Some by {
                assert(rest[k] == lines[k + 1]);
            }
        }
        lemma_scan_finds(rest, next);
        if has_layers_line(rest) {
            let k = choose|k: int| 0 <= k < rest.len() && is_layers_line(#[trigger] rest[k]);
            assert(is_layers_line(lines[k + 1]));
        }
        if has_classpath_line(rest) {
            let k = choose|k: int| 0 <= k < rest.len() && is_classpath_line(#[trigger] rest[k]);
            assert(is_classpath_line(lines[k + 1]));
        }
        if has_layers_line(lines) {
            let k = choose|k: int| 0 <= k < lines.len() && is_layers_line(#[trigger] lines[k]);
            if k > 0 {
                assert(is_layers_line(rest[k - 1]));
            }
        }
        if has_classpath_line(lines) {
            let k = choose|k: int| 0 <= k < lines.len() && is_classpath_line(#[trigger] lines[k]);
            if k > 0 {
                assert(is_classpath_line(rest[k - 1]));
            }
        }
        if is_layers_line(lines[0]) || is_classpath_line(lines[0]) {
            assert(property_value(lines[0]) is Some);
        }
    }
}

/// Where every line that begins with one of the properties gives it a
/// value, a manifest fails exactly where no line begins with the layer index
/// property or no line begins with the classpath index property.
pub proof fn lemma_parse_fails_exactly(lines: Seq<Seq<char>>)
    requires
        properties_have_values(lines),
    ensures
        parse(lines) is Err <==> !has_layers_line(lines) || !has_classpath_line(lines),
{
    lemma_scan_finds(lines, Found { layers: None, classpath: None });
}

/// A manifest without a line for the layer index fails for want of it.
pub proof fn lemma_parse_without_layers(lines: Seq<Seq<char>>)
    requires
        forall|k: int| 0 <= k < lines.len() ==> !is_layers_line(lines[k]),
    ensures
        parse(lines) == Err::<ManifestModel, ManifestError>(ManifestError::MissingLayersIndex),
{
    lemma_scan_without_layers(lines, Found { layers: None, classpath: None });
}

/// A manifest without a line for the classpath index fails.
pub proof fn lemma_parse_without_classpath(lines: Seq<Seq<char>>)
    requires
        forall|k: int| 0 <= k < lines.len() ==> !is_classpath_line(lines[k]),
    ensures
        parse(lines) is Err,
{
    lemma_scan_without_classpath(lines, Found { layers: None, classpath: None });
}

/// The value that `line` gives, `chars` being its characters.
fn value_of(line: &str, chars: &Vec<char>) -> (r: Option<String>)
    requires
        chars@ == line@,
    ensures
        opt_text(r) == property_value(line@),
{
    match find_from(chars, ':', 0) {
        Some(colon) => {
            let start = skip_whitespace(chars, colon + 1);
            let value = slice_of(line, start, chars.len());
            proof {
                lemma_after_first_found(line@, ':', colon as int);
                assert(line@.subrange(start as int, line@.len() as int) =~= line@.skip(
                    start as int,
                ));
            }
            Some(value)
        },
        None => {
            proof {
                lemma_after_first_absent(line@, ':');
            }
            None
        },
    }
}

impl JarManifest {
    /// Reads the manifest from the text of the manifest member.
    pub fn from_str(s: &str) -> (r: Result<JarManifest, ManifestError>)
        ensures
            is_outcome(r, parse(lines(s@))),
    {
        let read = split_lines(s);
        Self::from_lines(&read)
    }

    /// Reads the manifest from the lines that a reader gave, in the order
    /// in which it gave them.
    pub fn from_reader(read: Vec<String>) -> (r: Result<JarManifest, ManifestError>)
        ensures
            is_outcome(r, parse(texts(read@))),
    {
        Self::from_lines(&read)
    }

    /// Reads the manifest of the jar `archive` from its manifest member,
    /// line by line up to the first line that cannot be read. Fails with
    /// `MissingManifest` exactly where the archive does not open that
    /// member, as it does not where it has no member of that name.
    pub fn from_zip(archive: &mut Archive) -> (r: Result<JarManifest, ManifestError>)
        ensures
            members_of(*final(archive)) == members_of(*old(archive)),
            is_outcome(r, manifest_of(*old(archive))),
            !archive_names(*old(archive)).contains(MANIFEST_MEMBER@) ==> r == Err::<
                JarManifest,
                ManifestError,
            >(ManifestError::MissingManifest),
    {
        match manifest_lines(archive) {
            Some(read) => Self::from_lines(&read),
            None => Err(ManifestError::MissingManifest),
        }
    }

    /// Reads the manifest from `read`, the lines of a manifest in their
    /// order.
    pub fn from_lines(read: &Vec<String>) -> (r: Result<JarManifest, ManifestError>)
        ensures
            is_outcome(r, parse(texts(read@))),
    {
        let layers_prop = chars_of(PROP_LAYERS_INDEX);
        let classpath_prop = chars_of(PROP_CLASSPATH_INDEX);
        let mut layers: Option<String> = None;
        let mut classpath: Option<String> = None;
        let mut done: bool = false;
        let mut i: usize = 0;
        let ghost all = texts(read@);
        proof {
            assert(all.skip(0) =~= all);
        }
        while i < read.len() && !done
            invariant
                i <= read.len(),
                all == texts(read@),
                layers_prop@ == PROP_LAYERS_INDEX@,
                classpath_prop@ == PROP_CLASSPATH_INDEX@,
                done == (layers is Some && classpath is Some),
                scan(all, Found { layers: None, classpath: None }) == if done {
                    Found { layers: opt_text(layers), classpath: opt_text(classpath) }
                } else {
                    scan(
                        all.skip(i as int),
                        Found { layers: opt_text(layers), classpath: opt_text(classpath) },
                    )
                },
            decreases read.len() - i,
        {
            let ghost before = Found { layers: opt_text(layers), classpath: opt_text(classpath) };
            let line = read[i].as_str();
            let chars = chars_of(line);
            if starts_with(&chars, &layers_prop) {
                layers = value_of(line, &chars);
            } else if starts_with(&chars, &classpath_prop) {
                classpath = value_of(line, &chars);
            }
            proof {
                let rest = all.skip(i as int);
                assert(rest[0] == line@);
                assert(rest.skip(1) =~= all.skip(i + 1));
                assert(Found { layers: opt_text(layers), classpath: opt_text(classpath) }
                    == record(before, line@));
            }
            i += 1;
            done = layers.is_some() && classpath.is_some();
        }
        match layers {
            None => Err(ManifestError::MissingLayersIndex),
            Some(layers_index) => match classpath {
                None => Err(ManifestError::MissingClasspathIndex),
                Some(classpath_index) => Ok(JarManifest { layers_index, classpath_index }),
            },
        }
    }
}

impl std::str::FromStr for JarManifest {
    type Err = ManifestError;

    /// Reads the manifest from the text of the manifest member, as the
    /// method of the same name on `JarManifest` does.
    fn from_str(s: &str) -> (r: Result<JarManifest, ManifestError>) {
        JarManifest::from_str(s)
    }
}

} // verus!
