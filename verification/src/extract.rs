//! Planning the extraction of one layer: which directories to create and
//! which archive members to copy where, in order, up to the first entry
//! that cannot be extracted.
//!
//! Every path of a plan is relative to the root directory of its layer, which
//! is the destination joined with the layer's name.

use crate::paths::{
    begins_at_root, begins_with, components, components_of, ends_with_separator, escapes,
    is_absolute, is_directory, is_escaping, is_under, name_escapes, parts,
};
use crate::text::{chars_of, opt_text, texts};
use vstd::prelude::*;

verus! {

/// What the archive says of a declared file member.
#[derive(Debug, Clone, PartialEq, Eq)]
pub enum Lookup {
    /// The archive cannot open a member of that name.
    Missing,
    /// The archive has the member, but no enclosed name for it.
    Unsafe,
    /// The archive has the member; this is its enclosed name.
    Enclosed(String),
}

/// What a `Lookup` holds, as a mathematical value.
pub enum LookupModel {
    Missing,
    Unsafe,
    Enclosed(Seq<char>),
}

impl View for Lookup {
    type V = LookupModel;

    open spec fn view(&self) -> LookupModel {
        match self {
            Lookup::Missing => LookupModel::Missing,
            Lookup::Unsafe => LookupModel::Unsafe,
            Lookup::Enclosed(path) => LookupModel::Enclosed(path@),
        }
    }
}

/// What is said of a member that the archive opened, given the enclosed
/// name that it has, if it has one.
pub open spec fn lookup_of_opened(enclosed: Option<Seq<char>>) -> LookupModel {
    match enclosed {
        Some(path) => LookupModel::Enclosed(path),
        None => LookupModel::Unsafe,
    }
}

impl Lookup {
    /// What is said of a member that the archive opened: its enclosed name,
    /// or that it has none.
    pub fn opened(enclosed: Option<String>) -> (found: Lookup)
        ensures
            found@ == lookup_of_opened(opt_text(enclosed)),
    {
        match enclosed {
            Some(path) => Lookup::Enclosed(path),
            None => Lookup::Unsafe,
        }
    }
}

/// One action of an extraction.
#[derive(Debug, Clone, PartialEq, Eq)]
pub enum Step {
    /// Create the root directory of the layer, with its parents.
    CreateRoot,
    /// Create the directory `path`, with its parents.
    CreateDir { path: String },
    /// Copy the bytes of the archive member `member` to the file `path`,
    /// creating the parents of `path` and replacing what is there.
    CopyMember { member: String, path: String },
}

/// What a `Step` holds, as a mathematical value.
pub enum StepModel {
    CreateRoot,
    CreateDir { path: Seq<char> },
    CopyMember { member: Seq<char>, path: Seq<char> },
}

impl View for Step {
    type V = StepModel;

    open spec fn view(&self) -> StepModel {
        match self {
            Step::CreateRoot => StepModel::CreateRoot,
            Step::CreateDir { path } => StepModel::CreateDir { path: path@ },
            Step::CopyMember { member, path } => StepModel::CopyMember {
                member: member@,
                path: path@,
            },
        }
    }
}

/// Why the extraction of a layer stopped.
#[derive(Debug, Clone, PartialEq, Eq)]
pub enum ExtractError {
    /// The name of the layer leads out of the destination.
    LayerEscapes { layer: String },
    /// A declared entry leads out of the root directory of the layer.
    EntryEscapes { layer: String, entry: String },
    /// A declared file is no member of the archive.
    UnknownFile { layer: String, entry: String },
}

/// What an `ExtractError` holds, as a mathematical value.
pub enum Failure {
    LayerEscapes { layer: Seq<char> },
    EntryEscapes { layer: Seq<char>, entry: Seq<char> },
    UnknownFile { layer: Seq<char>, entry: Seq<char> },
}

impl View for ExtractError {
    type V = Failure;

    open spec fn view(&self) -> Failure {
        match self {
            ExtractError::LayerEscapes { layer } => Failure::LayerEscapes { layer: layer@ },
            ExtractError::EntryEscapes { layer, entry } => Failure::EntryEscapes {
                layer: layer@,
                entry: entry@,
            },
            ExtractError::UnknownFile { layer, entry } => Failure::UnknownFile {
                layer: layer@,
                entry: entry@,
            },
        }
    }
}

impl ExtractError {
    /// Whether the error reports a path that leads out of its directory.
    pub open spec fn traversal(self) -> bool {
        self is LayerEscapes || self is EntryEscapes
    }

    /// Whether the error reports a path that leads out of its directory.
    pub fn is_traversal(&self) -> (r: bool)
        ensures
            r == self.traversal(),
    {
        match self {
            ExtractError::LayerEscapes { .. } => true,
            ExtractError::EntryEscapes { .. } => true,
            ExtractError::UnknownFile { .. } => false,
        }
    }
}

/// The extraction of one layer: the steps to take, in order, and the reason
/// why it ends there if it does not cover the whole layer.
#[derive(Debug, Clone, PartialEq, Eq)]
pub struct LayerPlan {
    pub layer: String,
    pub steps: Vec<Step>,
    pub failure: Option<ExtractError>,
}

/// What a `LayerPlan` holds, as a mathematical value.
pub struct PlanModel {
    pub layer: Seq<char>,
    pub steps: Seq<StepModel>,
    pub failure: Option<Failure>,
}

/// The views of a sequence of steps.
pub open spec fn step_models(steps: Seq<Step>) -> Seq<StepModel> {
    steps.map_values(|step: Step| step@)
}

/// The views of a sequence of lookups.
pub open spec fn lookup_models(lookups: Seq<Lookup>) -> Seq<LookupModel> {
    lookups.map_values(|lookup: Lookup| lookup@)
}

/// The view of an optional error.
pub open spec fn failure_model(failure: Option<ExtractError>) -> Option<Failure> {
    match failure {
        Some(error) => Some(error@),
        None => None,
    }
}

impl View for LayerPlan {
    type V = PlanModel;

    open spec fn view(&self) -> PlanModel {
        PlanModel {
            layer: self.layer@,
            steps: step_models(self.steps@),
            failure: failure_model(self.failure),
        }
    }
}

/// The steps taken so far, and the failure that ended them, if any.
pub struct Progress {
    pub steps: Seq<StepModel>,
    pub failure: Option<Failure>,
}

/// Whether the member `name` is a file that lies under the directory
/// `entry`.
pub open spec fn is_child(name: Seq<char>, entry: Seq<char>) -> bool {
    !is_directory(name) && is_under(name, entry)
}

/// The copies that the directory `entry` stands for: one for each name of
/// `names` that is a file under `entry`, in the order of `names`, each to the
/// path that is its own name.
pub open spec fn expand(entry: Seq<char>, names: Seq<Seq<char>>) -> Seq<StepModel>
    decreases names.len(),
{
    if names.len() == 0 {
        Seq::empty()
    } else {
        let before = expand(entry, names.drop_last());
        let name = names.last();
        if is_child(name, entry) {
            before.push(StepModel::CopyMember { member: name, path: name })
        } else {
            before
        }
    }
}

/// What the archive says of the entry at `i`; nothing said counts as a
/// missing member.
pub open spec fn lookup_at(lookups: Seq<LookupModel>, i: int) -> LookupModel {
    if 0 <= i < lookups.len() {
        lookups[i]
    } else {
        LookupModel::Missing
    }
}

/// The steps for one declared entry of the layer `layer`, or the failure
/// that it ends the extraction with.
///
/// A directory entry must not lead out of the root of the layer; it is
/// created, and each file under it is copied to the path of its own name.
/// A file entry must be a member of the archive with an enclosed name, and is
/// copied to that name.
pub open spec fn entry_steps(
    layer: Seq<char>,
    entry: Seq<char>,
    names: Seq<Seq<char>>,
    lookup: LookupModel,
) -> Result<Seq<StepModel>, Failure> {
    if is_directory(entry) {
        if escapes(entry) {
            Err(Failure::EntryEscapes { layer, entry })
        } else {
            Ok(seq![StepModel::CreateDir { path: entry }] + expand(entry, names))
        }
    } else {
        match lookup {
            LookupModel::Missing => Err(Failure::UnknownFile { layer, entry }),
            LookupModel::Unsafe => Err(Failure::EntryEscapes { layer, entry }),
            LookupModel::Enclosed(path) => Ok(seq![StepModel::CopyMember { member: entry, path }]),
        }
    }
}

/// The steps for the first `n` entries of `files`, in order, up to the first
/// entry that fails.
pub open spec fn entries_plan(
    layer: Seq<char>,
    files: Seq<Seq<char>>,
    names: Seq<Seq<char>>,
    lookups: Seq<LookupModel>,
    n: nat,
) -> Progress
    decreases n,
{
    if n == 0 {
        Progress { steps: Seq::empty(), failure: None }
    } else {
        let before = entries_plan(layer, files, names, lookups, (n - 1) as nat);
        if before.failure is Some {
            before
        } else {
            match entry_steps(layer, files[n - 1], names, lookup_at(lookups, n - 1)) {
                Ok(steps) => Progress { steps: before.steps + steps, failure: None },
                Err(failure) => Progress { steps: before.steps, failure: Some(failure) },
            }
        }
    }
}

/// The extraction of the layer `layer`, which declares `files`, from an
/// archive that lists the member names `names` and says `lookups` of the
/// declared entries, each lookup at the place of its entry.
///
/// A layer whose name leads out of the destination gets no step at all.
/// Otherwise the root of the layer is created, and the entries follow in
/// their order up to the first that fails.
pub open spec fn layer_plan(
    layer: Seq<char>,
    files: Seq<Seq<char>>,
    names: Seq<Seq<char>>,
    lookups: Seq<LookupModel>,
) -> PlanModel {
    if escapes(layer) {
        PlanModel {
            layer,
            steps: Seq::empty(),
            failure: Some(Failure::LayerEscapes { layer }),
        }
    } else {
        let entries = entries_plan(layer, files, names, lookups, files.len());
        PlanModel {
            layer,
            steps: seq![StepModel::CreateRoot] + entries.steps,
            failure: entries.failure,
        }
    }
}

/// Once an entry has failed, no later entry adds anything.
pub proof fn lemma_failure_ends(
    layer: Seq<char>,
    files: Seq<Seq<char>>,
    names: Seq<Seq<char>>,
    lookups: Seq<LookupModel>,
    failed: nat,
    n: nat,
)
    requires
        failed <= n,
        entries_plan(layer, files, names, lookups, failed).failure is Some,
    ensures
        entries_plan(layer, files, names, lookups, n) == entries_plan(
            layer,
            files,
            names,
            lookups,
            failed,
        ),
    decreases n,
{
    if failed < n {
        lemma_failure_ends(layer, files, names, lookups, failed, (n - 1) as nat);
    }
}

/// Every copy that a directory entry stands for is the copy of a listed
/// name that is a file under the directory, to the path of that name.
pub proof fn lemma_expand_sound(entry: Seq<char>, names: Seq<Seq<char>>, k: int)
    requires
        0 <= k < expand(entry, names).len(),
    ensures
        expand(entry, names)[k] matches StepModel::CopyMember { member, path } && member == path
            && names.contains(member) && is_child(member, entry),
    decreases names.len(),
{
    if names.len() > 0 {
        let shorter = names.drop_last();
        let before = expand(entry, shorter);
        if k < before.len() {
            lemma_expand_sound(entry, shorter, k);
            let member = before[k]->member;
            let at = choose|at: int| 0 <= at < shorter.len() && shorter[at] == member;
            assert(names[at] == member);
        } else {
            assert(names[names.len() - 1] == names.last());
        }
    }
}

/// Every listed name that is a file under the directory is copied.
pub proof fn lemma_expand_complete(entry: Seq<char>, names: Seq<Seq<char>>, at: int)
    requires
        0 <= at < names.len(),
        is_child(names[at], entry),
    ensures
        expand(entry, names).contains(StepModel::CopyMember { member: names[at], path: names[at] }),
    decreases names.len(),
{
    let shorter = names.drop_last();
    let before = expand(entry, shorter);
    let step = StepModel::CopyMember { member: names[at], path: names[at] };
    if at < names.len() - 1 {
        lemma_expand_complete(entry, shorter, at);
        let k = choose|k: int| 0 <= k < before.len() && before[k] == step;
        assert(expand(entry, names)[k] == step);
    } else {
        assert(expand(entry, names)[before.len() as int] == step);
    }
}

/// The copies that a directory entry stands for follow the order in which
/// the names are listed: of two copies, the one whose name is listed first
/// comes first.
pub proof fn lemma_expand_ordered(entry: Seq<char>, names: Seq<Seq<char>>, i: int, j: int)
    requires
        names.no_duplicates(),
        0 <= i < j < expand(entry, names).len(),
    ensures
        names.index_of(expand(entry, names)[i]->member) < names.index_of(
            expand(entry, names)[j]->member,
        ),
    decreases names.len(),
{
    lemma_expand_sound(entry, names, i);
    lemma_expand_sound(entry, names, j);
    let shorter = names.drop_last();
    let before = expand(entry, shorter);
    let first = expand(entry, names)[i]->member;
    let second = expand(entry, names)[j]->member;
    assert(names[names.index_of(first)] == first);
    assert(names[names.index_of(second)] == second);
    if j < before.len() {
        lemma_expand_ordered(entry, shorter, i, j);
        lemma_expand_sound(entry, shorter, i);
        lemma_expand_sound(entry, shorter, j);
        assert(shorter[shorter.index_of(first)] == first);
        assert(shorter[shorter.index_of(second)] == second);
        assert(names[shorter.index_of(first)] == first);
        assert(names[shorter.index_of(second)] == second);
    } else {
        lemma_expand_sound(entry, shorter, i);
        assert(shorter[shorter.index_of(first)] == first);
        assert(names[shorter.index_of(first)] == first);
        assert(names[names.len() - 1] == second);
    }
}

/// A failure of the first `n` entries is the failure of one of them, the
/// first that fails.
pub proof fn lemma_failure_origin(
    layer: Seq<char>,
    files: Seq<Seq<char>>,
    names: Seq<Seq<char>>,
    lookups: Seq<LookupModel>,
    n: nat,
) -> (at: int)
    requires
        entries_plan(layer, files, names, lookups, n).failure is Some,
    ensures
        0 <= at < n,
        entries_plan(layer, files, names, lookups, at as nat).failure is None,
        entry_steps(layer, files[at], names, lookup_at(lookups, at)) == Err::<
            Seq<StepModel>,
            Failure,
        >(entries_plan(layer, files, names, lookups, n).failure->0),
    decreases n,
{
    let before = entries_plan(layer, files, names, lookups, (n - 1) as nat);
    if before.failure is Some {
        lemma_failure_origin(layer, files, names, lookups, (n - 1) as nat)
    } else {
        n - 1
    }
}

/// Whether `step` is one of the steps that the entry at `at` gives.
pub open spec fn is_step_of(
    step: StepModel,
    layer: Seq<char>,
    files: Seq<Seq<char>>,
    names: Seq<Seq<char>>,
    lookups: Seq<LookupModel>,
    at: int,
) -> bool {
    entry_steps(layer, files[at], names, lookup_at(lookups, at)) matches Ok(steps)
        && steps.contains(step)
}

/// Every step for the first `n` entries is a step that one of them gives.
pub proof fn lemma_step_origin(
    layer: Seq<char>,
    files: Seq<Seq<char>>,
    names: Seq<Seq<char>>,
    lookups: Seq<LookupModel>,
    n: nat,
    k: int,
) -> (at: int)
    requires
        0 <= k < entries_plan(layer, files, names, lookups, n).steps.len(),
    ensures
        0 <= at < n,
        is_step_of(
            entries_plan(layer, files, names, lookups, n).steps[k],
            layer,
            files,
            names,
            lookups,
            at,
        ),
    decreases n,
{
    let before = entries_plan(layer, files, names, lookups, (n - 1) as nat);
    if k < before.steps.len() {
        lemma_step_origin(layer, files, names, lookups, (n - 1) as nat, k)
    } else {
        let steps = entry_steps(layer, files[n - 1], names, lookup_at(lookups, n - 1))->Ok_0;
        assert(steps[k - before.steps.len()] == entries_plan(
            layer,
            files,
            names,
            lookups,
            n,
        ).steps[k]);
        n - 1
    }
}

/// Where the first `n` entries do not fail, every step that one of them
/// gives is a step of the plan.
pub proof fn lemma_steps_are_planned(
    layer: Seq<char>,
    files: Seq<Seq<char>>,
    names: Seq<Seq<char>>,
    lookups: Seq<LookupModel>,
    n: nat,
    at: int,
    step: StepModel,
)
    requires
        0 <= at < n,
        entries_plan(layer, files, names, lookups, n).failure is None,
        is_step_of(step, layer, files, names, lookups, at),
    ensures
        entries_plan(layer, files, names, lookups, n).steps.contains(step),
    decreases n,
{
    let all = entries_plan(layer, files, names, lookups, n);
    let before = entries_plan(layer, files, names, lookups, (n - 1) as nat);
    let steps = entry_steps(layer, files[n - 1], names, lookup_at(lookups, n - 1))->Ok_0;
    if at < n - 1 {
        lemma_steps_are_planned(layer, files, names, lookups, (n - 1) as nat, at, step);
        let k = choose|k: int| 0 <= k < before.steps.len() && before.steps[k] == step;
        assert(all.steps[k] == step);
    } else {
        let j = choose|j: int| 0 <= j < steps.len() && steps[j] == step;
        assert(all.steps[before.steps.len() + j] == step);
    }
}

/// Whether the path of `step` stays in the root directory of its layer, as
/// far as the path itself shows: a directory that is created does not lead
/// out of the root, and no file is copied to a path that begins at the
/// root of the file system.
pub open spec fn stays_inside(step: StepModel) -> bool {
    match step {
        StepModel::CreateRoot => true,
        StepModel::CreateDir { path } => !escapes(path),
        StepModel::CopyMember { member, path } => !is_absolute(path),
    }
}

/// Where no enclosed name begins at the root, every step of the first `n`
/// entries stays inside the layer.
proof fn lemma_entries_stay_inside(
    layer: Seq<char>,
    files: Seq<Seq<char>>,
    names: Seq<Seq<char>>,
    lookups: Seq<LookupModel>,
    n: nat,
    k: int,
)
    requires
        forall|i: int|
            0 <= i < lookups.len() ==> ((#[trigger] lookups[i]) matches LookupModel::Enclosed(path)
                ==> !is_absolute(path)),
        0 <= k < entries_plan(layer, files, names, lookups, n).steps.len(),
    ensures
        stays_inside(entries_plan(layer, files, names, lookups, n).steps[k]),
    decreases n,
{
    if n > 0 {
        let before = entries_plan(layer, files, names, lookups, (n - 1) as nat);
        if k < before.steps.len() {
            lemma_entries_stay_inside(layer, files, names, lookups, (n - 1) as nat, k);
        } else {
            let entry = files[n - 1];
            if is_directory(entry) {
                if k > before.steps.len() {
                    lemma_expand_sound(entry, names, k - before.steps.len() - 1);
                }
            }
        }
    }
}

/// No plan leads out of the root directory of its layer, as far as the
/// paths themselves show: where no enclosed name that the archive gave
/// begins at the root, a plan with steps is for a layer whose name does not
/// lead out of the destination, and each of its steps stays inside that
/// layer.
pub proof fn lemma_plan_stays_inside(
    layer: Seq<char>,
    files: Seq<Seq<char>>,
    names: Seq<Seq<char>>,
    lookups: Seq<LookupModel>,
    k: int,
)
    requires
        forall|i: int|
            0 <= i < lookups.len() ==> ((#[trigger] lookups[i]) matches LookupModel::Enclosed(path)
                ==> !is_absolute(path)),
        0 <= k < layer_plan(layer, files, names, lookups).steps.len(),
    ensures
        !escapes(layer),
        stays_inside(layer_plan(layer, files, names, lookups).steps[k]),
{
    if k > 0 {
        lemma_entries_stay_inside(layer, files, names, lookups, files.len(), k - 1);
    }
}

/// A layer whose name leads out of the destination, by a `..` piece or by
/// beginning at the root, is not extracted: its plan holds no step, and
/// reports the name.
pub proof fn lemma_escaping_layer(
    layer: Seq<char>,
    files: Seq<Seq<char>>,
    names: Seq<Seq<char>>,
    lookups: Seq<LookupModel>,
)
    requires
        escapes(layer),
    ensures
        layer_plan(layer, files, names, lookups).steps.len() == 0,
        layer_plan(layer, files, names, lookups).failure == Some(Failure::LayerEscapes { layer }),
{
}

/// A directory entry that leads out of the root of the layer, by a `..`
/// piece or by beginning at the root, ends the extraction where it stands:
/// the plan holds what the entries before it gave, nothing for the entry or
/// for what follows it, and reports the entry.
pub proof fn lemma_escaping_directory(
    layer: Seq<char>,
    files: Seq<Seq<char>>,
    names: Seq<Seq<char>>,
    lookups: Seq<LookupModel>,
    at: int,
)
    requires
        !escapes(layer),
        0 <= at < files.len(),
        is_directory(files[at]),
        escapes(files[at]),
        entries_plan(layer, files, names, lookups, at as nat).failure is None,
    ensures
        layer_plan(layer, files, names, lookups).failure == Some(
            Failure::EntryEscapes { layer, entry: files[at] },
        ),
        layer_plan(layer, files, names, lookups).steps == seq![StepModel::CreateRoot]
            + entries_plan(layer, files, names, lookups, at as nat).steps,
{
    lemma_failure_ends(layer, files, names, lookups, (at + 1) as nat, files.len());
}

/// A declared file that the archive cannot open ends the extraction where
/// it stands: the plan holds what the entries before it gave, nothing for
/// the file or for what follows it, and reports the layer and the file.
pub proof fn lemma_missing_member(
    layer: Seq<char>,
    files: Seq<Seq<char>>,
    names: Seq<Seq<char>>,
    lookups: Seq<LookupModel>,
    at: int,
)
    requires
        !escapes(layer),
        0 <= at < files.len(),
        !is_directory(files[at]),
        lookup_at(lookups, at) is Missing,
        entries_plan(layer, files, names, lookups, at as nat).failure is None,
    ensures
        layer_plan(layer, files, names, lookups).failure == Some(
            Failure::UnknownFile { layer, entry: files[at] },
        ),
        layer_plan(layer, files, names, lookups).steps == seq![StepModel::CreateRoot]
            + entries_plan(layer, files, names, lookups, at as nat).steps,
{
    lemma_failure_ends(layer, files, names, lookups, (at + 1) as nat, files.len());
}

/// A member name of the archive, taken apart once for all the entries that
/// it is compared with.
struct Member {
    name: String,
    directory: bool,
    absolute: bool,
    parts: Vec<Vec<char>>,
}

impl Member {
    /// Whether the fields say of `name` what the path functions say of it.
    spec fn wf(self) -> bool {
        &&& self.directory == is_directory(self.name@)
        &&& self.absolute == is_absolute(self.name@)
        &&& parts(self.parts@) == components(self.name@)
    }

    /// Takes the member name `name` apart.
    fn new(name: &String) -> (member: Member)
        ensures
            member.wf(),
            member.name@ == name@,
    {
        let chars = chars_of(name.as_str());
        Member {
            name: name.clone(),
            directory: ends_with_separator(&chars),
            absolute: begins_at_root(&chars),
            parts: components_of(&chars),
        }
    }
}

/// Takes each of the member names `names` apart.
fn members_of(names: &Vec<String>) -> (members: Vec<Member>)
    ensures
        members@.len() == names@.len(),
        forall|k: int|
            0 <= k < members@.len() ==> (#[trigger] members@[k]).wf() && members@[k].name@
                == names@[k]@,
{
    let mut members: Vec<Member> = Vec::new();
    let mut i: usize = 0;
    while i < names.len()
        invariant
            i <= names.len(),
            members@.len() == i,
            forall|k: int|
                0 <= k < members@.len() ==> (#[trigger] members@[k]).wf() && members@[k].name@
                    == names@[k]@,
        decreases names.len() - i,
    {
        members.push(Member::new(&names[i]));
        i += 1;
    }
    members
}

/// Adds to `steps` the copies that the directory `entry` stands for.
fn push_children(steps: &mut Vec<Step>, entry: &Vec<char>, members: &Vec<Member>)
    requires
        forall|k: int| 0 <= k < members@.len() ==> (#[trigger] members@[k]).wf(),
    ensures
        step_models(final(steps)@) == step_models(old(steps)@) + expand(
            entry@,
            Seq::new(members@.len(), |k: int| members@[k].name@),
        ),
{
    let ghost names = Seq::new(members@.len(), |k: int| members@[k].name@);
    let ghost start = step_models(steps@);
    let absolute = begins_at_root(entry);
    let prefix = components_of(entry);
    let mut j: usize = 0;
    proof {
        assert(start + expand(entry@, names.take(0)) =~= start);
    }
    while j < members.len()
        invariant
            j <= members.len(),
            names == Seq::new(members@.len(), |k: int| members@[k].name@),
            forall|k: int| 0 <= k < members@.len() ==> (#[trigger] members@[k]).wf(),
            absolute == is_absolute(entry@),
            parts(prefix@) == components(entry@),
            step_models(steps@) == start + expand(entry@, names.take(j as int)),
        decreases members.len() - j,
    {
        let member = &members[j];
        proof {
            assert(names.take(j + 1).drop_last() =~= names.take(j as int));
            assert(names.take(j + 1).last() == member.name@);
        }
        if !member.directory && member.absolute == absolute && begins_with(&member.parts, &prefix) {
            let step = Step::CopyMember { member: member.name.clone(), path: member.name.clone() };
            proof {
                assert(step_models(steps@.push(step)) =~= step_models(steps@).push(step@));
                assert(start + expand(entry@, names.take(j as int)).push(step@) =~= (start
                    + expand(entry@, names.take(j as int))).push(step@));
            }
            steps.push(step);
        }
        j += 1;
    }
    proof {
        assert(names.take(members@.len() as int) =~= names);
    }
}

/// Plans the extraction of the layer `layer`, which declares `files`, from
/// an archive that lists the member names `names` and says `lookups` of the
/// declared entries, each lookup at the place of its entry.
pub fn plan_layer(layer: &str, files: &Vec<String>, names: &Vec<String>, lookups: &Vec<Lookup>) -> (plan:
    LayerPlan)
    ensures
        plan@ == layer_plan(layer@, texts(files@), texts(names@), lookup_models(lookups@)),
{
    let ghost listed = texts(names@);
    let ghost declared = texts(files@);
    let ghost said = lookup_models(lookups@);
    if name_escapes(layer) {
        let steps: Vec<Step> = Vec::new();
        assert(step_models(steps@) =~= Seq::<StepModel>::empty());
        return LayerPlan {
            layer: layer.to_owned(),
            steps,
            failure: Some(ExtractError::LayerEscapes { layer: layer.to_owned() }),
        };
    }
    let members = members_of(names);
    proof {
        assert(Seq::new(members@.len(), |k: int| members@[k].name@) =~= listed);
    }
    let mut steps: Vec<Step> = Vec::new();
    steps.push(Step::CreateRoot);
    let mut i: usize = 0;
    proof {
        assert(step_models(steps@) =~= seq![StepModel::CreateRoot] + entries_plan(
            layer@,
            declared,
            listed,
            said,
            0,
        ).steps);
    }
    while i < files.len()
        invariant
            i <= files.len(),
            listed == texts(names@),
            declared == texts(files@),
            said == lookup_models(lookups@),
            !escapes(layer@),
            forall|k: int| 0 <= k < members@.len() ==> (#[trigger] members@[k]).wf(),
            Seq::new(members@.len(), |k: int| members@[k].name@) == listed,
            entries_plan(layer@, declared, listed, said, i as nat).failure is None,
            step_models(steps@) == seq![StepModel::CreateRoot] + entries_plan(
                layer@,
                declared,
                listed,
                said,
                i as nat,
            ).steps,
        decreases files.len() - i,
    {
        let entry = &files[i];
        let chars = chars_of(entry.as_str());
        let ghost before = entries_plan(layer@, declared, listed, said, i as nat);
        let ghost shown = step_models(steps@);
        proof {
            assert(declared[i as int] == entry@);
        }
        let mut failure: Option<ExtractError> = None;
        if ends_with_separator(&chars) {
            if is_escaping(&chars) {
                failure =
                Some(
                    ExtractError::EntryEscapes { layer: layer.to_owned(), entry: entry.clone() },
                );
            } else {
                let step = Step::CreateDir { path: entry.clone() };
                proof {
                    assert(step_models(steps@.push(step)) =~= shown.push(step@));
                }
                steps.push(step);
                push_children(&mut steps, &chars, &members);
                proof {
                    assert(step_models(steps@) =~= shown + (seq![
                        StepModel::CreateDir { path: entry@ },
                    ] + expand(entry@, listed)));
                }
            }
        } else {
            let ghost lookup = lookup_at(said, i as int);
            if i < lookups.len() {
                proof {
                    assert(said[i as int] == lookups@[i as int]@);
                }
                match &lookups[i] {
                    Lookup::Missing => {
                        failure =
                        Some(
                            ExtractError::UnknownFile {
                                layer: layer.to_owned(),
                                entry: entry.clone(),
                            },
                        );
                    },
                    Lookup::Unsafe => {
                        failure =
                        Some(
                            ExtractError::EntryEscapes {
                                layer: layer.to_owned(),
                                entry: entry.clone(),
                            },
                        );
                    },
                    Lookup::Enclosed(path) => {
                        let step = Step::CopyMember { member: entry.clone(), path: path.clone() };
                        proof {
                            assert(step_models(steps@.push(step)) =~= shown + seq![step@]);
                        }
                        steps.push(step);
                    },
                }
            } else {
                failure =
                Some(ExtractError::UnknownFile { layer: layer.to_owned(), entry: entry.clone() });
            }
        }
        let ghost after = entries_plan(layer@, declared, listed, said, (i + 1) as nat);
        proof {
            assert(after.failure == failure_model(failure));
            assert(step_models(steps@) =~= seq![StepModel::CreateRoot] + after.steps);
        }
        match failure {
            Some(error) => {
                proof {
                    lemma_failure_ends(
                        layer@,
                        declared,
                        listed,
                        said,
                        (i + 1) as nat,
                        declared.len(),
                    );
                }
                return LayerPlan { layer: layer.to_owned(), steps, failure: Some(error) };
            },
            None => {},
        }
        i += 1;
    }
    LayerPlan { layer: layer.to_owned(), steps, failure: None }
}

} // verus!
