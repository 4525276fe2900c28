//! The jar as a zip archive held in memory: what the library asks of the
//! `zip` crate, and the reading of the indexes and the planning of an
//! extraction on top of it.
//!
//! The archive is opaque to the verifier. The bytes that it reads are held
//! in memory, so what it holds is a function of the archive alone, and has
//! names: `archive_names` for the names of its members, `member_opens` for
//! the members that it opens, `member_text` and `member_lines` for what a
//! member holds. The order in which it lists its members is left open.

use crate::classpath::{classpath_entries, classpath_of};
use crate::extract::{
    entries_plan, entry_steps, expand, is_child, layer_plan, lemma_expand_complete,
    lemma_expand_sound, lemma_failure_ends, lemma_failure_origin, lemma_missing_member,
    lemma_step_origin,
    lemma_steps_are_planned, lookup_at, lookup_models, plan_layer, Failure, LayerPlan, Lookup,
    LookupModel, PlanModel, StepModel,
};
use crate::index::{document_of, is_document, load_document, yaml_documents, IndexError};
use crate::layers::{layer_models, layer_names, names_of, plan, plan_of, Layer, LayerModel};
use crate::manifest::JarManifest;
use crate::paths::{escapes, is_absolute, is_directory, is_plain};
use crate::text::{chars_of, opt_text, texts};
use crate::tree::{Node, Tree};
use vstd::prelude::*;

verus! {

/// `zip::ZipArchive`, a zip archive over a reader, as an opaque type.
#[verifier::external_type_specification]
#[verifier::external_body]
#[verifier::reject_recursive_types(R)]
pub struct ExZipArchive<R>(zip::ZipArchive<R>);

/// `std::io::Cursor`, a reader over bytes in memory, as an opaque type.
#[verifier::external_type_specification]
#[verifier::external_body]
#[verifier::reject_recursive_types(T)]
pub struct ExCursor<T>(std::io::Cursor<T>);

/// `zip::read::ZipFile`, an opened entry of an archive, as an opaque type.
#[verifier::external_type_specification]
#[verifier::external_body]
pub struct ExZipFile<'a>(zip::read::ZipFile<'a>);

/// A jar, read from bytes that are held in memory.
pub type Archive<'a> = zip::ZipArchive<std::io::Cursor<&'a [u8]>>;

/// The names of the members of `archive`: the keys of the map from names to
/// entries that `zip::ZipArchive::new` fills from the central directory.
pub uninterp spec fn archive_names(archive: zip::ZipArchive<std::io::Cursor<&[u8]>>) -> Set<
    Seq<char>,
>;

/// Whether `archive` opens the member `name`: whether
/// `zip::ZipArchive::by_name_decrypt`, called with `name` and an empty
/// password, returns an entry. The call finds the entry by its name and
/// reads its header from the bytes of the archive, which are held in memory.
pub uninterp spec fn member_opens(
    archive: zip::ZipArchive<std::io::Cursor<&[u8]>>,
    name: Seq<char>,
) -> bool;

/// The text of the member `name` of `archive`, where the archive opens that
/// member: what `std::io::Read::read_to_string` reads from the entry that
/// `zip::ZipArchive::by_name_decrypt` returns for `name`. It is `None` where
/// the entry cannot be inflated, fails its checksum or is not UTF-8.
pub uninterp spec fn member_text(
    archive: zip::ZipArchive<std::io::Cursor<&[u8]>>,
    name: Seq<char>,
) -> Option<Seq<char>>;

/// The lines of the member `name` of `archive`, where the archive opens
/// that member: what `std::io::BufRead::lines` yields on the entry that
/// `zip::ZipArchive::by_name_decrypt` returns for `name`, up to the first
/// line that cannot be read.
pub uninterp spec fn member_lines(
    archive: zip::ZipArchive<std::io::Cursor<&[u8]>>,
    name: Seq<char>,
) -> Seq<Seq<char>>;

/// The name of the entry that `file` reads: what `zip::read::ZipFile::name`
/// returns.
pub uninterp spec fn member_name(file: zip::read::ZipFile<'_>) -> Seq<char>;

/// The text of the entry `file`, read from its start: what
/// `std::io::Read::read_to_string` reads from it, and `None` where that
/// fails.
pub uninterp spec fn entry_text(file: zip::read::ZipFile<'_>) -> Option<Seq<char>>;

/// The lines of the entry `file`, read from its start: what
/// `std::io::BufRead::lines` yields on it, up to the first line that cannot
/// be read.
pub uninterp spec fn entry_lines(file: zip::read::ZipFile<'_>) -> Seq<Seq<char>>;

/// What a jar holds as far as listing and opening go: the names of its
/// members, and the names under which it opens a member.
pub struct Members {
    pub listed: Set<Seq<char>>,
    pub opening: Set<Seq<char>>,
}

/// The members of `archive`.
pub open spec fn members_of(archive: Archive) -> Members {
    Members {
        listed: archive_names(archive),
        opening: Set::new(|name: Seq<char>| member_opens(archive, name)),
    }
}

/// Two archives with the same member names that open the same members have
/// the same members.
pub proof fn lemma_same_members(before: Archive, after: Archive)
    requires
        archive_names(after) == archive_names(before),
        forall|name: Seq<char>| #[trigger]
            member_opens(after, name) == member_opens(before, name),
    ensures
        members_of(after) == members_of(before),
{
    assert(members_of(after).opening =~= members_of(before).opening);
}

/// Whether `names` lists the members `listed`, each once, in some order.
pub open spec fn is_listing(names: Seq<Seq<char>>, listed: Set<Seq<char>>) -> bool {
    names.no_duplicates() && names.to_set() == listed
}

/// Calls `zip::ZipArchive::file_names` and collects what it yields. The
/// names come from the keys of a hash map: each member name once, in an
/// order that is left open.
#[verifier::external_body]
fn member_names(archive: &Archive) -> (names: Vec<String>)
    ensures
        is_listing(texts(names@), archive_names(*archive)),
{
    archive.file_names().map(String::from).collect()
}

/// Calls `zip::ZipArchive::by_name_decrypt` with an empty password, which
/// opens an entry that is not encrypted as `by_name` does, and returns an
/// error where `by_name` would panic. Any failure becomes `None`.
///
/// Whether the call returns an entry is `member_opens` of the archive and
/// `name`. The call looks `name` up among the member names and fails where
/// it is not there; the entry that it opens is the one of that name, and
/// what is read from that entry is what the archive holds under that name.
/// The call seeks to the entry from the start of the bytes, so neither the
/// member names nor the members that open depend on what was opened or read
/// before.
#[verifier::external_body]
fn open_member<'a>(archive: &'a mut Archive, name: &str) -> (file: Option<zip::read::ZipFile<'a>>)
    ensures
        archive_names(*final(archive)) == archive_names(*old(archive)),
        forall|other: Seq<char>| #[trigger]
            member_opens(*final(archive), other) == member_opens(*old(archive), other),
        file is Some <==> member_opens(*old(archive), name@),
        file matches Some(opened) ==> archive_names(*old(archive)).contains(name@)
            && member_name(opened) == name@,
        file matches Some(opened) ==> entry_text(opened) == member_text(*old(archive), name@)
            && entry_lines(opened) == member_lines(*old(archive), name@),
{
    archive.by_name_decrypt(name, &[]).ok().and_then(Result::ok)
}

/// Calls `zip::read::ZipFile::enclosed_name`. Where it returns a path, the
/// path is the name of the entry, unchanged, and that name does not begin at
/// the root. It returns none only for a name that holds a NUL, begins at a
/// root or a drive, or climbs above its start by `..`; a plain name is none
/// of these on any platform, so it gets its path.
#[verifier::external_body]
fn enclosed_name(file: &zip::read::ZipFile<'_>) -> (path: Option<String>)
    ensures
        path matches Some(p) ==> p@ == member_name(*file) && !is_absolute(p@),
        is_plain(member_name(*file)) ==> path is Some,
{
    file.enclosed_name().and_then(|path| path.to_str()).map(String::from)
}

/// Calls `std::io::Read::read_to_string` on the entry, which inflates it
/// and checks that it is UTF-8. Any failure becomes `None`. The result is
/// `entry_text` of the entry as it was handed in.
#[verifier::external_body]
fn read_text(file: &mut zip::read::ZipFile<'_>) -> (text: Option<String>)
    ensures
        opt_text(text) == entry_text(*old(file)),
{
    let mut text = String::new();
    std::io::Read::read_to_string(file, &mut text).ok().map(|_| text)
}

/// Calls `std::io::BufRead::lines` on a buffered reader of the entry, and
/// collects the lines up to the first that cannot be read. The result is
/// `entry_lines` of the entry.
#[verifier::external_body]
fn read_lines(file: zip::read::ZipFile<'_>) -> (lines: Vec<String>)
    ensures
        texts(lines@) == entry_lines(file),
{
    std::io::BufRead::lines(std::io::BufReader::new(file)).map_while(Result::ok).collect()
}

/// The name of the member that holds the manifest.
pub const MANIFEST_MEMBER: &'static str = "META-INF/MANIFEST.MF";

/// The lines of the manifest member of `archive`, up to the first line that
/// cannot be read. There are lines, if only none, exactly where the archive
/// opens that member, which it does only where it has a member of that
/// name.
pub(crate) fn manifest_lines(archive: &mut Archive) -> (lines: Option<Vec<String>>)
    ensures
        members_of(*final(archive)) == members_of(*old(archive)),
        lines is Some <==> member_opens(*old(archive), MANIFEST_MEMBER@),
        lines is Some ==> archive_names(*old(archive)).contains(MANIFEST_MEMBER@),
        lines matches Some(read) ==> texts(read@) == member_lines(
            *old(archive),
            MANIFEST_MEMBER@,
        ),
{
    let lines = match open_member(archive, MANIFEST_MEMBER) {
        Some(file) => Some(read_lines(file)),
        None => None,
    };
    proof {
        lemma_same_members(*old(archive), *archive);
    }
    lines
}

/// The tree that the index member `member` of `archive` holds, or the
/// reason why it holds none: the archive does not open the member, the
/// member is no UTF-8 text, or the text does not parse into one document.
pub open spec fn index_of(archive: Archive, member: Seq<char>) -> Result<Tree, IndexError> {
    if !member_opens(archive, member) {
        Err(IndexError::MemberNotFound)
    } else {
        match member_text(archive, member) {
            Some(text) => document_of(yaml_documents(text)),
            None => Err(IndexError::Unreadable),
        }
    }
}

/// Loads the index that the member `member` of `archive` holds: opens the
/// member, reads it whole as UTF-8 text, and parses the text into its one
/// document.
pub fn load_index(archive: &mut Archive, member: &str) -> (r: Result<Node, IndexError>)
    ensures
        members_of(*final(archive)) == members_of(*old(archive)),
        is_document(r, index_of(*old(archive), member@)),
        !archive_names(*old(archive)).contains(member@) ==> r == Err::<Node, IndexError>(
            IndexError::MemberNotFound,
        ),
{
    let read = match open_member(archive, member) {
        Some(mut file) => Some(read_text(&mut file)),
        None => None,
    };
    proof {
        lemma_same_members(*old(archive), *archive);
    }
    match read {
        Some(Some(text)) => load_document(text.as_str()),
        Some(None) => Err(IndexError::Unreadable),
        None => Err(IndexError::MemberNotFound),
    }
}

/// Loads the layer index of the jar: the index that the member holds which
/// the manifest names as the layer index.
pub fn layers_yaml(archive: &mut Archive, manifest: &JarManifest) -> (r: Result<Node, IndexError>)
    ensures
        members_of(*final(archive)) == members_of(*old(archive)),
        is_document(r, index_of(*old(archive), manifest.layers_index@)),
        !archive_names(*old(archive)).contains(manifest.layers_index@) ==> r == Err::<
            Node,
            IndexError,
        >(IndexError::MemberNotFound),
{
    load_index(archive, manifest.layers_index.as_str())
}

/// Loads the classpath index of the jar: the index that the member holds
/// which the manifest names as the classpath index.
pub fn classpath_yaml(archive: &mut Archive, manifest: &JarManifest) -> (r: Result<
    Node,
    IndexError,
>)
    ensures
        members_of(*final(archive)) == members_of(*old(archive)),
        is_document(r, index_of(*old(archive), manifest.classpath_index@)),
        !archive_names(*old(archive)).contains(manifest.classpath_index@) ==> r == Err::<
            Node,
            IndexError,
        >(IndexError::MemberNotFound),
{
    load_index(archive, manifest.classpath_index.as_str())
}

/// Whether `r` is the outcome `expected`, up to the views of the strings.
pub open spec fn is_listed(
    r: Result<Vec<String>, IndexError>,
    expected: Result<Seq<Seq<char>>, IndexError>,
) -> bool {
    match r {
        Ok(items) => expected == Ok::<Seq<Seq<char>>, IndexError>(texts(items@)),
        Err(e) => expected == Err::<Seq<Seq<char>>, IndexError>(e),
    }
}

/// The names of the layers that the layer index `index` declares, in its
/// order, or the reason why there are none.
pub open spec fn layers_in(index: Result<Tree, IndexError>) -> Result<Seq<Seq<char>>, IndexError> {
    match index {
        Ok(tree) => match plan_of(tree, Seq::empty()) {
            Ok(layers) => Ok(names_of(layers)),
            Err(e) => Err(e),
        },
        Err(e) => Err(e),
    }
}

/// The names of the layers of the jar, in the order of its layer index: what
/// the index declares that the member holds which the manifest names as the
/// layer index.
pub fn list(archive: &mut Archive, manifest: &JarManifest) -> (r: Result<Vec<String>, IndexError>)
    ensures
        members_of(*final(archive)) == members_of(*old(archive)),
        is_listed(r, layers_in(index_of(*old(archive), manifest.layers_index@))),
        !archive_names(*old(archive)).contains(manifest.layers_index@) ==> r == Err::<
            Vec<String>,
            IndexError,
        >(IndexError::MemberNotFound),
{
    match layers_yaml(archive, manifest) {
        Ok(tree) => layer_names(&tree),
        Err(e) => Err(e),
    }
}

/// The classpath that the classpath index `index` lists, in its order, or
/// the reason why there is none.
pub open spec fn classpath_in(index: Result<Tree, IndexError>) -> Result<
    Seq<Seq<char>>,
    IndexError,
> {
    match index {
        Ok(tree) => classpath_of(tree),
        Err(e) => Err(e),
    }
}

/// The classpath of the jar, in the order of its classpath index: what the
/// index lists that the member holds which the manifest names as the
/// classpath index.
pub fn classpath(archive: &mut Archive, manifest: &JarManifest) -> (r: Result<
    Vec<String>,
    IndexError,
>)
    ensures
        members_of(*final(archive)) == members_of(*old(archive)),
        is_listed(r, classpath_in(index_of(*old(archive), manifest.classpath_index@))),
        !archive_names(*old(archive)).contains(manifest.classpath_index@) ==> r == Err::<
            Vec<String>,
            IndexError,
        >(IndexError::MemberNotFound),
{
    match classpath_yaml(archive, manifest) {
        Ok(tree) => classpath_entries(&tree),
        Err(e) => Err(e),
    }
}

/// Whether the archive says `lookup` of the declared file `entry`: the file
/// is missing exactly where the archive does not open a member of that name,
/// what it opens is one of its members, an enclosed name is the name of the
/// member itself and does not begin at the root, and a member with a plain
/// name that the archive opens has its enclosed name.
pub open spec fn is_lookup_of(lookup: LookupModel, entry: Seq<char>, members: Members) -> bool {
    &&& lookup is Missing <==> !members.opening.contains(entry)
    &&& !(lookup is Missing) ==> members.listed.contains(entry)
    &&& lookup matches LookupModel::Enclosed(path) ==> path == entry && !is_absolute(path)
    &&& members.opening.contains(entry) && is_plain(entry) ==> lookup == LookupModel::Enclosed(
        entry,
    )
}

/// Whether `lookups` are what the archive says of `files`, entry by entry.
/// Of a directory entry nothing is asked, and nothing is said here.
pub open spec fn are_lookups_of(
    lookups: Seq<LookupModel>,
    files: Seq<Seq<char>>,
    members: Members,
) -> bool {
    &&& lookups.len() == files.len()
    &&& forall|i: int|
        0 <= i < lookups.len() && !is_directory(files[i]) ==> is_lookup_of(
            #[trigger] lookups[i],
            files[i],
            members,
        )
}

/// Whether `plan` is the plan for the layer when the archive lists its
/// members as `names` and says `lookups` of the declared entries.
pub open spec fn explains(
    plan: PlanModel,
    layer: LayerModel,
    members: Members,
    names: Seq<Seq<char>>,
    lookups: Seq<LookupModel>,
) -> bool {
    &&& is_listing(names, members.listed)
    &&& are_lookups_of(lookups, layer.files, members)
    &&& plan == layer_plan(layer.name, layer.files, names, lookups)
}

/// Whether `plan` is the plan for the layer from an archive with these
/// members: the plan for some order in which the archive lists its members
/// and for what it says of the declared files.
pub open spec fn is_extraction_of(plan: PlanModel, layer: LayerModel, members: Members) -> bool {
    exists|names: Seq<Seq<char>>, lookups: Seq<LookupModel>|
        explains(plan, layer, members, names, lookups)
}

/// A declared file that is no member of the archive ends the extraction of
/// its layer: where the entries before it do not fail, the plan reports the
/// layer and the file.
pub proof fn lemma_absent_member_fails(
    plan: PlanModel,
    layer: LayerModel,
    members: Members,
    names: Seq<Seq<char>>,
    lookups: Seq<LookupModel>,
    at: int,
)
    requires
        explains(plan, layer, members, names, lookups),
        !escapes(layer.name),
        0 <= at < layer.files.len(),
        !is_directory(layer.files[at]),
        !members.listed.contains(layer.files[at]),
        entries_plan(layer.name, layer.files, names, lookups, at as nat).failure is None,
    ensures
        plan.failure == Some(Failure::UnknownFile { layer: layer.name, entry: layer.files[at] }),
{
    assert(is_lookup_of(lookups[at], layer.files[at], members));
    lemma_missing_member(layer.name, layer.files, names, lookups, at);
}

/// A plan that does not fail copies every file of the archive that lies
/// under one of the declared directories.
pub proof fn lemma_children_are_copied(
    plan: PlanModel,
    layer: LayerModel,
    members: Members,
    names: Seq<Seq<char>>,
    lookups: Seq<LookupModel>,
    at: int,
    member: Seq<char>,
)
    requires
        explains(plan, layer, members, names, lookups),
        plan.failure is None,
        0 <= at < layer.files.len(),
        is_directory(layer.files[at]),
        members.listed.contains(member),
        is_child(member, layer.files[at]),
    ensures
        plan.steps.contains(StepModel::CopyMember { member, path: member }),
{
    let entry = layer.files[at];
    let step = StepModel::CopyMember { member, path: member };
    let count = layer.files.len();
    let progress = entries_plan(layer.name, layer.files, names, lookups, count);
    assert(names.to_set().contains(member));
    let listed_at = choose|i: int| 0 <= i < names.len() && names[i] == member;
    lemma_expand_complete(entry, names, listed_at);
    if entries_plan(layer.name, layer.files, names, lookups, (at + 1) as nat).failure is Some {
        lemma_failure_ends(layer.name, layer.files, names, lookups, (at + 1) as nat, count);
    }
    if entries_plan(layer.name, layer.files, names, lookups, at as nat).failure is Some {
        lemma_failure_ends(layer.name, layer.files, names, lookups, at as nat, count);
    }
    let given = seq![StepModel::CreateDir { path: entry }] + expand(entry, names);
    let k = choose|k: int| 0 <= k < expand(entry, names).len() && expand(entry, names)[k] == step;
    assert(given[k + 1] == step);
    lemma_steps_are_planned(layer.name, layer.files, names, lookups, count, at, step);
    let planned = choose|j: int| 0 <= j < progress.steps.len() && progress.steps[j] == step;
    assert(plan.steps[planned + 1] == step);
}

/// A plan that does not fail copies every declared file to the path that
/// is its own name.
pub proof fn lemma_declared_file_is_copied(
    plan: PlanModel,
    layer: LayerModel,
    members: Members,
    names: Seq<Seq<char>>,
    lookups: Seq<LookupModel>,
    at: int,
)
    requires
        explains(plan, layer, members, names, lookups),
        plan.failure is None,
        0 <= at < layer.files.len(),
        !is_directory(layer.files[at]),
    ensures
        plan.steps.contains(
            StepModel::CopyMember { member: layer.files[at], path: layer.files[at] },
        ),
{
    let entry = layer.files[at];
    let step = StepModel::CopyMember { member: entry, path: entry };
    let count = layer.files.len();
    let progress = entries_plan(layer.name, layer.files, names, lookups, count);
    assert(is_lookup_of(lookups[at], entry, members));
    if entries_plan(layer.name, layer.files, names, lookups, (at + 1) as nat).failure is Some {
        lemma_failure_ends(layer.name, layer.files, names, lookups, (at + 1) as nat, count);
    }
    if entries_plan(layer.name, layer.files, names, lookups, at as nat).failure is Some {
        lemma_failure_ends(layer.name, layer.files, names, lookups, at as nat, count);
    }
    let given = entry_steps(layer.name, entry, names, lookup_at(lookups, at))->Ok_0;
    assert(given[0] == step);
    lemma_steps_are_planned(layer.name, layer.files, names, lookups, count, at, step);
    let planned = choose|j: int| 0 <= j < progress.steps.len() && progress.steps[j] == step;
    assert(plan.steps[planned + 1] == step);
}

/// Whether nothing stands in the way of the layer: its name does not lead
/// out of the destination, none of its directories leads out of its root,
/// and each of its files has a plain name under which the archive opens a
/// member.
pub open spec fn is_sound_layer(layer: LayerModel, members: Members) -> bool {
    &&& !escapes(layer.name)
    &&& forall|i: int|
        0 <= i < layer.files.len() ==> if is_directory(#[trigger] layer.files[i]) {
            !escapes(layer.files[i])
        } else {
            members.opening.contains(layer.files[i]) && is_plain(layer.files[i])
        }
}

/// Where nothing stands in the way, the first `n` entries do not fail.
proof fn lemma_sound_entries_do_not_fail(
    layer: LayerModel,
    members: Members,
    names: Seq<Seq<char>>,
    lookups: Seq<LookupModel>,
    n: nat,
)
    requires
        is_sound_layer(layer, members),
        are_lookups_of(lookups, layer.files, members),
        n <= layer.files.len(),
    ensures
        entries_plan(layer.name, layer.files, names, lookups, n).failure is None,
    decreases n,
{
    if n > 0 {
        lemma_sound_entries_do_not_fail(layer, members, names, lookups, (n - 1) as nat);
        let entry = layer.files[n - 1];
        if !is_directory(entry) {
            assert(is_lookup_of(lookups[n - 1], entry, members));
        }
    }
}

/// The plan of a layer does not fail where nothing stands in its way: then
/// every declared file and every file under a declared directory is copied,
/// as `lemma_declared_file_is_copied` and `lemma_children_are_copied` say.
pub proof fn lemma_sound_layer_does_not_fail(
    plan: PlanModel,
    layer: LayerModel,
    members: Members,
    names: Seq<Seq<char>>,
    lookups: Seq<LookupModel>,
)
    requires
        explains(plan, layer, members, names, lookups),
        is_sound_layer(layer, members),
    ensures
        plan.failure is None,
{
    lemma_sound_entries_do_not_fail(layer, members, names, lookups, layer.files.len());
}

/// Every copy of a plan copies a member of the archive to the path that is
/// the name of that member, and that path does not begin at the root.
pub proof fn lemma_copies_are_members(
    plan: PlanModel,
    layer: LayerModel,
    members: Members,
    names: Seq<Seq<char>>,
    lookups: Seq<LookupModel>,
    k: int,
)
    requires
        explains(plan, layer, members, names, lookups),
        0 <= k < plan.steps.len(),
    ensures
        plan.steps[k] matches StepModel::CopyMember { member, path } ==> members.listed.contains(
            member,
        )
            && path == member && !is_absolute(path),
{
    let step = plan.steps[k];
    if step is CopyMember {
        let at = lemma_step_origin(
            layer.name,
            layer.files,
            names,
            lookups,
            layer.files.len(),
            k - 1,
        );
        let entry = layer.files[at];
        let given = entry_steps(layer.name, entry, names, lookup_at(lookups, at))->Ok_0;
        let j = choose|j: int| 0 <= j < given.len() && given[j] == step;
        if is_directory(entry) {
            lemma_expand_sound(entry, names, j - 1);
            assert(names.to_set().contains(step->member));
        } else {
            assert(is_lookup_of(lookups[at], entry, members));
        }
    }
}

/// A declared file that the archive does not open ends the extraction of
/// its layer: where the entries before it do not fail, the plan reports the
/// layer and the file.
pub proof fn lemma_unopened_member_fails(
    plan: PlanModel,
    layer: LayerModel,
    members: Members,
    names: Seq<Seq<char>>,
    lookups: Seq<LookupModel>,
    at: int,
)
    requires
        explains(plan, layer, members, names, lookups),
        !escapes(layer.name),
        0 <= at < layer.files.len(),
        !is_directory(layer.files[at]),
        !members.opening.contains(layer.files[at]),
        entries_plan(layer.name, layer.files, names, lookups, at as nat).failure is None,
    ensures
        plan.failure == Some(Failure::UnknownFile { layer: layer.name, entry: layer.files[at] }),
{
    assert(is_lookup_of(lookups[at], layer.files[at], members));
    lemma_missing_member(layer.name, layer.files, names, lookups, at);
}

/// A plan reports a file as unknown only where the archive does not open
/// a member of that name.
pub proof fn lemma_unknown_file_does_not_open(
    plan: PlanModel,
    layer: LayerModel,
    members: Members,
    names: Seq<Seq<char>>,
    lookups: Seq<LookupModel>,
    entry: Seq<char>,
)
    requires
        explains(plan, layer, members, names, lookups),
        plan.failure == Some(Failure::UnknownFile { layer: layer.name, entry }),
    ensures
        !members.opening.contains(entry),
{
    let at = lemma_failure_origin(layer.name, layer.files, names, lookups, layer.files.len());
    assert(is_lookup_of(lookups[at], layer.files[at], members));
}

/// What `archive` says of the declared file `entry`. The file is missing
/// exactly where the archive does not open a member of that name, as it does
/// not where it has none. Of a member that it opens, the archive gives the
/// enclosed name, which is the name of the member itself and does not begin
/// at the root, or gives none; it gives the name wherever the name is plain.
pub fn lookup(archive: &mut Archive, entry: &str) -> (found: Lookup)
    ensures
        members_of(*final(archive)) == members_of(*old(archive)),
        found is Missing <==> !member_opens(*old(archive), entry@),
        member_opens(*old(archive), entry@) && is_plain(entry@) ==> found@
            == LookupModel::Enclosed(entry@),
        is_lookup_of(found@, entry@, members_of(*old(archive))),
{
    let enclosed = match open_member(archive, entry) {
        Some(file) => Some(enclosed_name(&file)),
        None => None,
    };
    proof {
        lemma_same_members(*old(archive), *archive);
    }
    match enclosed {
        Some(path) => Lookup::opened(path),
        None => Lookup::Missing,
    }
}

/// What `archive` says of each of the declared entries `files`. A
/// directory entry is not looked up, and counts as missing.
fn lookups_of(archive: &mut Archive, files: &Vec<String>) -> (lookups: Vec<Lookup>)
    ensures
        members_of(*final(archive)) == members_of(*old(archive)),
        are_lookups_of(lookup_models(lookups@), texts(files@), members_of(*old(archive))),
{
    let ghost members = members_of(*archive);
    let mut lookups: Vec<Lookup> = Vec::new();
    let mut i: usize = 0;
    while i < files.len()
        invariant
            i <= files.len(),
            lookups@.len() == i,
            members_of(*archive) == members,
            forall|k: int|
                0 <= k < i && !is_directory(texts(files@)[k]) ==> is_lookup_of(
                    #[trigger] lookup_models(lookups@)[k],
                    texts(files@)[k],
                    members,
                ),
        decreases files.len() - i,
    {
        let entry = files[i].as_str();
        let chars = chars_of(entry);
        let found = if crate::paths::ends_with_separator(&chars) {
            Lookup::Missing
        } else {
            lookup(archive, entry)
        };
        proof {
            let before = lookup_models(lookups@);
            let after = lookup_models(lookups@.push(found));
            assert forall|k: int|
                0 <= k < i + 1 && !is_directory(texts(files@)[k]) implies is_lookup_of(
                #[trigger] after[k],
                texts(files@)[k],
                members,
            ) by {
                if k < i {
                    assert(after[k] == before[k]);
                }
            }
        }
        lookups.push(found);
        i += 1;
    }
    lookups
}

/// Plans the extraction of the layer `layer`, which declares `files`, from
/// `archive`: lists the members of the archive once, looks up each declared
/// file, and plans as `plan_layer` does.
pub fn extract_layer(archive: &mut Archive, layer: &str, files: &Vec<String>) -> (plan: LayerPlan)
    ensures
        members_of(*final(archive)) == members_of(*old(archive)),
        is_extraction_of(
            plan@,
            LayerModel { name: layer@, files: texts(files@) },
            members_of(*old(archive)),
        ),
{
    let names = member_names(archive);
    let lookups = lookups_of(archive, files);
    let plan = plan_layer(layer, files, &names, &lookups);
    assert(explains(
        plan@,
        LayerModel { name: layer@, files: texts(files@) },
        members_of(*old(archive)),
        texts(names@),
        lookup_models(lookups@),
    ));
    plan
}

/// The views of a sequence of plans.
pub open spec fn plan_models(plans: Seq<LayerPlan>) -> Seq<PlanModel> {
    plans.map_values(|plan: LayerPlan| plan@)
}

/// Whether `plans` extract `layers` in order and stop at the first layer
/// that fails: each plan is the one for the layer at its place, no plan but
/// the last holds a failure, and a layer is left without a plan only behind
/// a failure.
pub open spec fn is_extraction(
    plans: Seq<PlanModel>,
    layers: Seq<LayerModel>,
    members: Members,
) -> bool {
    &&& plans.len() <= layers.len()
    &&& forall|i: int|
        0 <= i < plans.len() ==> is_extraction_of(#[trigger] plans[i], layers[i], members)
    &&& forall|i: int| 0 <= i < plans.len() - 1 ==> (#[trigger] plans[i]).failure is None
    &&& plans.len() < layers.len() ==> plans.len() > 0 && plans.last().failure is Some
}

/// A layer that fails is the last that is planned: no layer behind it is
/// looked at.
pub proof fn lemma_failed_layer_is_last(
    plans: Seq<PlanModel>,
    layers: Seq<LayerModel>,
    members: Members,
    at: int,
)
    requires
        is_extraction(plans, layers, members),
        0 <= at < plans.len(),
        plans[at].failure is Some,
    ensures
        at == plans.len() - 1,
{
}

/// Plans the extraction of `layers` from `archive`, layer by layer in their
/// order, and stops behind the first layer whose plan holds a failure.
pub fn extract_layers(archive: &mut Archive, layers: &Vec<Layer>) -> (plans: Vec<LayerPlan>)
    ensures
        members_of(*final(archive)) == members_of(*old(archive)),
        is_extraction(plan_models(plans@), layer_models(layers@), members_of(*old(archive))),
{
    let ghost members = members_of(*archive);
    let ghost wanted = layer_models(layers@);
    let mut plans: Vec<LayerPlan> = Vec::new();
    let mut failed: bool = false;
    let mut i: usize = 0;
    while i < layers.len() && !failed
        invariant
            i <= layers.len(),
            plans@.len() == i,
            wanted == layer_models(layers@),
            members_of(*archive) == members,
            failed ==> i > 0 && plan_models(plans@).last().failure is Some,
            forall|k: int|
                0 <= k < i ==> is_extraction_of(
                    #[trigger] plan_models(plans@)[k],
                    wanted[k],
                    members,
                ),
            forall|k: int|
                0 <= k < i - 1 ==> (#[trigger] plan_models(plans@)[k]).failure is None,
            !failed ==> forall|k: int|
                0 <= k < i ==> (#[trigger] plan_models(plans@)[k]).failure is None,
        decreases layers.len() - i,
    {
        let layer = &layers[i];
        let plan = extract_layer(archive, layer.name.as_str(), &layer.files);
        proof {
            let before = plan_models(plans@);
            let after = plan_models(plans@.push(plan));
            assert(wanted[i as int] == LayerModel { name: layer.name@, files: texts(layer.files@) });
            assert forall|k: int| 0 <= k < i + 1 implies is_extraction_of(
                #[trigger] after[k],
                wanted[k],
                members,
            ) by {
                if k < i {
                    assert(after[k] == before[k]);
                }
            }
            assert forall|k: int| 0 <= k < i implies (#[trigger] after[k]).failure is None by {
                assert(after[k] == before[k]);
            }
            assert(after.last() == plan@);
        }
        failed = plan.failure.is_some();
        plans.push(plan);
        i += 1;
    }
    plans
}

/// Whether `r` is what planning an extraction gives when the layer index
/// is `index`: the reason why there is no index or why it declares no
/// layers, or else the extraction of the layers that `requested` asks for.
pub open spec fn is_extract_from(
    r: Result<Vec<LayerPlan>, IndexError>,
    index: Result<Tree, IndexError>,
    requested: Seq<Seq<char>>,
    members: Members,
) -> bool {
    match index {
        Ok(tree) => match plan_of(tree, requested) {
            Ok(layers) => r matches Ok(plans) && is_extraction(
                plan_models(plans@),
                layers,
                members,
            ),
            Err(e) => r == Err::<Vec<LayerPlan>, IndexError>(e),
        },
        Err(e) => r == Err::<Vec<LayerPlan>, IndexError>(e),
    }
}

/// Plans the extraction of the jar: loads the layer index from the member
/// that the manifest names, keeps the layers that `layers` asks for (all of
/// them where it is empty), and plans them in the order of the index up to
/// the first layer that fails.
pub fn extract(archive: &mut Archive, manifest: &JarManifest, layers: &Vec<String>) -> (r: Result<
    Vec<LayerPlan>,
    IndexError,
>)
    ensures
        members_of(*final(archive)) == members_of(*old(archive)),
        is_extract_from(
            r,
            index_of(*old(archive), manifest.layers_index@),
            texts(layers@),
            members_of(*old(archive)),
        ),
        !archive_names(*old(archive)).contains(manifest.layers_index@) ==> r == Err::<
            Vec<LayerPlan>,
            IndexError,
        >(IndexError::MemberNotFound),
{
    match layers_yaml(archive, manifest) {
        Ok(tree) => match plan(&tree, layers) {
            Ok(chosen) => Ok(extract_layers(archive, &chosen)),
            Err(e) => Err(e),
        },
        Err(e) => Err(e),
    }
}

} // verus!
