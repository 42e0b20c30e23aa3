use vstd::prelude::*;

use crate::archive::{gunzip, gunzip_of, tar_entry_list, tar_parse, zip_entries, zip_parse, Entry,
    EntryModel};
use crate::detect::{classify, classify_spec, ArchiveFormat};
use crate::errors::InstallError;
use crate::names::{resolve_name, resolved_name};
use crate::paths::{extends_safely, lemma_extends_trans, lemma_extension_is_within,
    lemma_sanitize_safe, sanitize_entry_path, sanitize_spec, seg_ok, segment_is_plain, SafePath};
use crate::text::{before_first, contains_char, find_char, lemma_first_index, starts_with,
    str_starts_with};

verus! {

/// One filesystem mutation of an installation plan, performed in order by
/// the embedding application. `RemoveDirAll` removes the tree if it
/// exists, `CreateDirAll` creates missing parents too, `WriteFile` creates
/// or replaces the file, and `RenameDir` moves a directory to a
/// destination that the plan has already cleared.
#[derive(Debug, PartialEq, Eq)]
pub enum FsAction {
    RemoveDirAll { path: SafePath },
    CreateDirAll { path: SafePath },
    WriteFile { path: SafePath, data: Vec<u8> },
    RenameDir { from: SafePath, to: SafePath },
}

/// The model of an action, over segment and byte sequences.
pub enum ActionModel {
    RemoveDirAll { path: Seq<Seq<char>> },
    CreateDirAll { path: Seq<Seq<char>> },
    WriteFile { path: Seq<Seq<char>>, data: Seq<u8> },
    RenameDir { from: Seq<Seq<char>>, to: Seq<Seq<char>> },
}

impl View for FsAction {
    type V = ActionModel;

    open spec fn view(&self) -> ActionModel {
        match self {
            FsAction::RemoveDirAll { path } => ActionModel::RemoveDirAll { path: path@ },
            FsAction::CreateDirAll { path } => ActionModel::CreateDirAll { path: path@ },
            FsAction::WriteFile { path, data } => ActionModel::WriteFile {
                path: path@,
                data: data@,
            },
            FsAction::RenameDir { from, to } => ActionModel::RenameDir { from: from@, to: to@ },
        }
    }
}

impl DeepView for FsAction {
    type V = ActionModel;

    open spec fn deep_view(&self) -> ActionModel {
        self@
    }
}

/// Every path the action touches extends `root` safely.
pub open spec fn action_within(root: Seq<Seq<char>>, a: ActionModel) -> bool {
    match a {
        ActionModel::RemoveDirAll { path } => extends_safely(root, path),
        ActionModel::CreateDirAll { path } => extends_safely(root, path),
        ActionModel::WriteFile { path, data } => extends_safely(root, path),
        ActionModel::RenameDir { from, to } => extends_safely(root, from) && extends_safely(
            root,
            to,
        ),
    }
}

/// The macOS resource-fork folder marker; entries under it are skipped.
pub open spec fn macosx_prefix() -> Seq<char> {
    seq!['_', '_', 'M', 'A', 'C', 'O', 'S', 'X', '/']
}

/// An entry the extraction ignores entirely.
pub open spec fn skipped_entry(name: Seq<char>) -> bool {
    starts_with(name, macosx_prefix())
}

/// The directory to create before writing a file at `p`: its parent when
/// `p` lies strictly below `root`, and `root` itself otherwise.
pub open spec fn parent_below(root: Seq<Seq<char>>, p: Seq<Seq<char>>) -> Seq<Seq<char>> {
    if p.len() > root.len() {
        p.drop_last()
    } else {
        p
    }
}

/// The actions one entry contributes below `root`: nothing for a skipped
/// entry, a directory creation for a directory entry, and a parent
/// creation plus a file write for a file entry. `None` when the entry's
/// name escapes `root`.
pub open spec fn entry_actions(root: Seq<Seq<char>>, e: EntryModel) -> Option<Seq<ActionModel>> {
    if skipped_entry(e.0) {
        Some(Seq::empty())
    } else {
        match sanitize_spec(root, e.0) {
            None => None,
            Some(p) => {
                if e.1 {
                    Some(seq![ActionModel::CreateDirAll { path: p }])
                } else {
                    Some(
                        seq![
                            ActionModel::CreateDirAll { path: parent_below(root, p) },
                            ActionModel::WriteFile { path: p, data: e.2 },
                        ],
                    )
                }
            },
        }
    }
}

/// The actions of all entries, in order; `None` when any entry escapes.
pub open spec fn entries_actions(root: Seq<Seq<char>>, es: Seq<EntryModel>) -> Option<
    Seq<ActionModel>,
>
    decreases es.len(),
{
    if es.len() == 0 {
        Some(Seq::empty())
    } else {
        match entries_actions(root, es.drop_last()) {
            None => None,
            Some(p) => match entry_actions(root, es.last()) {
                None => None,
                Some(a) => Some(p + a),
            },
        }
    }
}

/// One escaping entry poisons the whole list.
pub proof fn lemma_entries_actions_none(root: Seq<Seq<char>>, es: Seq<EntryModel>, j: int)
    requires
        0 <= j < es.len(),
        entry_actions(root, es[j]) is None,
    ensures
        entries_actions(root, es) is None,
    decreases es.len(),
{
    if j < es.len() - 1 {
        lemma_entries_actions_none(root, es.drop_last(), j);
    }
}

/// Everything a successful entry plan touches stays below `root`.
pub proof fn lemma_entries_actions_safe(root: Seq<Seq<char>>, es: Seq<EntryModel>)
    ensures
        entries_actions(root, es) matches Some(acts) ==> forall|i: int|
            0 <= i < acts.len() ==> action_within(root, #[trigger] acts[i]),
    decreases es.len(),
{
    if es.len() > 0 && entries_actions(root, es) is Some {
        lemma_entries_actions_safe(root, es.drop_last());
        let last = es.last();
        lemma_sanitize_safe(root, last.0);
        if !skipped_entry(last.0) && sanitize_spec(root, last.0) is Some {
            let p = sanitize_spec(root, last.0)->Some_0;
            assert(extends_safely(root, parent_below(root, p))) by {
                if p.len() > root.len() {
                    assert(p.drop_last().subrange(0, root.len() as int) =~= p.subrange(
                        0,
                        root.len() as int,
                    ));
                }
            }
        }
    }
}

fn has_root_files(entries: &Vec<Entry>) -> (r: bool)
    ensures
        r == has_root_entry(entries.deep_view()),
{
    let mut i: usize = 0;
    while i < entries.len()
        invariant
            i <= entries.len(),
            forall|k: int| 0 <= k < i ==> contains_char(
                #[trigger] entries.deep_view()[k].0,
                '/',
            ),
        decreases entries.len() - i,
    {
        proof {
            assert(entries.deep_view()[i as int] == entries@[i as int]@);
        }
        if find_char(entries[i].name.as_str(), '/').is_none() {
            return true;
        }
        i += 1;
    }
    false
}

/// Some entry sits at the archive's top level, without any `/`.
pub open spec fn has_root_entry(es: Seq<EntryModel>) -> bool {
    exists|i: int| 0 <= i < es.len() && !contains_char(es[i].0, '/')
}

/// The fixed name of the nested-zip staging directory inside the mods
/// root.
pub open spec fn scratch_seg() -> Seq<char> {
    seq!['t', 'e', 'm', 'p', '_', 'e', 'x', 't', 'r', 'a', 'c', 't']
}

/// The wrapping folder a nested zip is normalized out of: the first
/// entry's leading path segment.
pub open spec fn zip_top(es: Seq<EntryModel>) -> Seq<char> {
    before_first(es[0].0, '/')
}

/// The plan for a zip payload below `root`, installed as `name`. With any
/// top-level entry the archive is extracted straight into the target;
/// otherwise everything goes to the staging directory, whose single
/// wrapping folder is then renamed into place. `None` when an entry
/// escapes, when a nested archive is empty, or when its wrapping folder's
/// name is not a plain segment.
pub open spec fn zip_plan(es: Seq<EntryModel>, root: Seq<Seq<char>>, name: Seq<char>) -> Option<
    Seq<ActionModel>,
> {
    let target = root.push(name);
    if has_root_entry(es) {
        match entries_actions(target, es) {
            None => None,
            Some(acts) => Some(
                seq![
                    ActionModel::RemoveDirAll { path: target },
                    ActionModel::CreateDirAll { path: target },
                ] + acts,
            ),
        }
    } else if es.len() == 0 {
        None
    } else {
        let scratch = root.push(scratch_seg());
        if !seg_ok(zip_top(es)) {
            None
        } else {
            match entries_actions(scratch, es) {
                None => None,
                Some(acts) => Some(
                    seq![
                        ActionModel::RemoveDirAll { path: target },
                        ActionModel::RemoveDirAll { path: scratch },
                        ActionModel::CreateDirAll { path: scratch },
                    ] + acts + seq![
                        ActionModel::RenameDir { from: scratch.push(zip_top(es)), to: target },
                        ActionModel::RemoveDirAll { path: scratch },
                    ],
                ),
            }
        }
    }
}

/// The plan for a tar stream below `root`, installed as `name`: the
/// target is created and the entries land directly under it, trusted to
/// already encode the right relative layout. `None` when an entry escapes.
pub open spec fn tar_plan(es: Seq<EntryModel>, root: Seq<Seq<char>>, name: Seq<char>) -> Option<
    Seq<ActionModel>,
> {
    let target = root.push(name);
    match entries_actions(target, es) {
        None => None,
        Some(acts) => Some(seq![ActionModel::CreateDirAll { path: target }] + acts),
    }
}

/// The target of an install extends the root by one plain segment.
proof fn lemma_target_safe(root: Seq<Seq<char>>, name: Seq<char>)
    requires
        seg_ok(name),
    ensures
        extends_safely(root, root.push(name)),
{
    lemma_extension_is_within(root, seq![name]);
    assert(root + seq![name] =~= root.push(name));
}

/// The staging directory's name is a plain segment.
proof fn lemma_scratch_seg_ok()
    ensures
        seg_ok(scratch_seg()),
{
    assert forall|i: int| 0 <= i < scratch_seg().len() implies scratch_seg()[i] != '/' by {}
}

/// An action below an intermediate root is below the outer root too.
proof fn lemma_action_within_trans(root: Seq<Seq<char>>, mid: Seq<Seq<char>>, a: ActionModel)
    requires
        extends_safely(root, mid),
        action_within(mid, a),
    ensures
        action_within(root, a),
{
    match a {
        ActionModel::RemoveDirAll { path } => lemma_extends_trans(root, mid, path),
        ActionModel::CreateDirAll { path } => lemma_extends_trans(root, mid, path),
        ActionModel::WriteFile { path, data } => lemma_extends_trans(root, mid, path),
        ActionModel::RenameDir { from, to } => {
            lemma_extends_trans(root, mid, from);
            lemma_extends_trans(root, mid, to);
        },
    }
}

/// Everything a successful zip plan touches stays below `root`: the
/// installer's traversal-safety guarantee for zip payloads.
pub proof fn lemma_zip_plan_safe(es: Seq<EntryModel>, root: Seq<Seq<char>>, name: Seq<char>)
    requires
        seg_ok(name),
    ensures
        zip_plan(es, root, name) matches Some(acts) ==> forall|i: int|
            0 <= i < acts.len() ==> action_within(root, #[trigger] acts[i]),
{
    let target = root.push(name);
    lemma_target_safe(root, name);
    if has_root_entry(es) {
        lemma_entries_actions_safe(target, es);
        if zip_plan(es, root, name) is Some {
            let acts = zip_plan(es, root, name)->Some_0;
            let inner = entries_actions(target, es)->Some_0;
            assert forall|i: int| 0 <= i < acts.len() implies action_within(
                root,
                #[trigger] acts[i],
            ) by {
                if i >= 2 {
                    assert(acts[i] == inner[i - 2]);
                    lemma_action_within_trans(root, target, acts[i]);
                }
            }
        }
    } else if es.len() > 0 && seg_ok(zip_top(es)) {
        let scratch = root.push(scratch_seg());
        lemma_scratch_seg_ok();
        lemma_target_safe(root, scratch_seg());
        lemma_entries_actions_safe(scratch, es);
        if zip_plan(es, root, name) is Some {
            let acts = zip_plan(es, root, name)->Some_0;
            let inner = entries_actions(scratch, es)->Some_0;
            assert(extends_safely(root, scratch.push(zip_top(es)))) by {
                lemma_extension_is_within(root, seq![scratch_seg(), zip_top(es)]);
                assert(root + seq![scratch_seg(), zip_top(es)] =~= scratch.push(zip_top(es)));
            }
            assert forall|i: int| 0 <= i < acts.len() implies action_within(
                root,
                #[trigger] acts[i],
            ) by {
                if 3 <= i < 3 + inner.len() {
                    assert(acts[i] == inner[i - 3]);
                    lemma_action_within_trans(root, scratch, acts[i]);
                }
            }
        }
    }
}

/// Everything a successful tar plan touches stays below `root`: the
/// installer's traversal-safety guarantee for tar payloads.
pub proof fn lemma_tar_plan_safe(es: Seq<EntryModel>, root: Seq<Seq<char>>, name: Seq<char>)
    requires
        seg_ok(name),
    ensures
        tar_plan(es, root, name) matches Some(acts) ==> forall|i: int|
            0 <= i < acts.len() ==> action_within(root, #[trigger] acts[i]),
{
    let target = root.push(name);
    lemma_target_safe(root, name);
    lemma_entries_actions_safe(target, es);
    if tar_plan(es, root, name) is Some {
        let acts = tar_plan(es, root, name)->Some_0;
        let inner = entries_actions(target, es)->Some_0;
        assert forall|i: int| 0 <= i < acts.len() implies action_within(
            root,
            #[trigger] acts[i],
        ) by {
            if i >= 1 {
                assert(acts[i] == inner[i - 1]);
                lemma_action_within_trans(root, target, acts[i]);
            }
        }
    }
}

fn parent_below_exec(root: &SafePath, p: &SafePath) -> (r: SafePath)
    ensures
        r@ == parent_below(root@, p@),
{
    if p.segments.len() > root.segments.len() {
        let mut segments = p.segments.clone();
        proof {
            assert forall|i: int| 0 <= i < segments@.len() implies segments@[i]@
                == p.segments@[i]@ by {
                assert(cloned::<String>(p.segments[i], segments[i]));
            }
            assert(segments.deep_view() =~= p@);
        }
        segments.pop();
        proof {
            assert(segments.deep_view() =~= p@.drop_last());
        }
        SafePath { segments }
    } else {
        p.clone_path()
    }
}

/// Turns the entries into actions below `root`, skipping macOS
/// resource-fork entries and rejecting any entry that escapes `root`.
pub fn plan_entries(root: &SafePath, entries: &Vec<Entry>) -> (r: Result<
    Vec<FsAction>,
    InstallError,
>)
    ensures
        match r {
            Ok(v) => entries_actions(root@, entries.deep_view()) == Some(v.deep_view()),
            Err(e) => entries_actions(root@, entries.deep_view()) is None && e
                matches InstallError::PathTraversal { .. },
        },
{
    let ghost evs = entries.deep_view();
    let mut out: Vec<FsAction> = Vec::new();
    proof {
        assert(evs.take(0) =~= Seq::<EntryModel>::empty());
        assert(out.deep_view() =~= Seq::<ActionModel>::empty());
    }
    let mut i: usize = 0;
    while i < entries.len()
        invariant
            evs == entries.deep_view(),
            i <= entries.len(),
            entries_actions(root@, evs.take(i as int)) == Some(out.deep_view()),
        decreases entries.len() - i,
    {
        let ghost pre = out.deep_view();
        proof {
            assert(evs[i as int] == entries@[i as int]@);
            assert(evs.take(i as int + 1).drop_last() =~= evs.take(i as int));
            assert(evs.take(i as int + 1).last() == evs[i as int]);
            reveal_strlit("__MACOSX/");
            assert("__MACOSX/"@ =~= macosx_prefix());
        }
        let e = &entries[i];
        if str_starts_with(e.name.as_str(), "__MACOSX/") {
            proof {
                assert(out.deep_view() =~= pre + Seq::<ActionModel>::empty());
            }
        } else {
            match sanitize_entry_path(root, e.name.as_str()) {
                Err(err) => {
                    proof {
                        lemma_entries_actions_none(root@, evs, i as int);
                    }
                    return Err(err);
                },
                Ok(p) => {
                    if e.is_dir {
                        let ghost pv = p@;
                        out.push(FsAction::CreateDirAll { path: p });
                        proof {
                            assert(out.deep_view() =~= pre + seq![
                                ActionModel::CreateDirAll { path: pv },
                            ]);
                        }
                    } else {
                        let parent = parent_below_exec(root, &p);
                        let data = vstd::slice::slice_to_vec(e.data.as_slice());
                        let ghost pv = p@;
                        let ghost parentv = parent@;
                        let ghost datav = data@;
                        out.push(FsAction::CreateDirAll { path: parent });
                        out.push(FsAction::WriteFile { path: p, data });
                        proof {
                            assert(out.deep_view() =~= pre + seq![
                                ActionModel::CreateDirAll { path: parentv },
                                ActionModel::WriteFile { path: pv, data: datav },
                            ]);
                        }
                    }
                },
            }
        }
        i += 1;
    }
    proof {
        assert(evs.take(entries@.len() as int) =~= evs);
    }
    Ok(out)
}

} // verus!

// ---- strategy planners ----

verus! {

/// Plans a zip installation below `mods_root` as `mod_name`, per
/// `zip_plan`: straight into the target when the archive has top-level
/// entries, through the staging directory otherwise. An empty nested
/// archive, or one whose wrapping folder is not a plain name, is
/// `InvalidState`; an escaping entry is `PathTraversal`.
pub fn plan_zip(entries: &Vec<Entry>, mods_root: &SafePath, mod_name: &String) -> (r: Result<
    (SafePath, Vec<FsAction>),
    InstallError,
>)
    requires
        seg_ok(mod_name@),
    ensures
        r matches Ok(tp) ==> tp.0@ == mods_root@.push(mod_name@) && zip_plan(
            entries.deep_view(),
            mods_root@,
            mod_name@,
        ) == Some(tp.1.deep_view()),
        r is Ok <==> zip_plan(entries.deep_view(), mods_root@, mod_name@) is Some,
        r matches Err(e) ==> (e matches InstallError::PathTraversal { .. } || e
            matches InstallError::InvalidState { .. }),
        r matches Err(e) ==> (has_root_entry(entries.deep_view()) ==> e
            matches InstallError::PathTraversal { .. }),
        r matches Err(e) ==> (!has_root_entry(entries.deep_view()) && entries.deep_view().len()
            == 0 ==> e matches InstallError::InvalidState { .. }),
        r matches Err(e) ==> (!has_root_entry(entries.deep_view()) && entries.deep_view().len() > 0
            && seg_ok(zip_top(entries.deep_view())) ==> e matches InstallError::PathTraversal {
            ..
        }),
{
    let ghost evs = entries.deep_view();
    let target = mods_root.child(mod_name.clone());
    if has_root_files(entries) {
        match plan_entries(&target, entries) {
            Err(e) => Err(e),
            Ok(mut acts) => {
                let ghost actsv = acts.deep_view();
                let mut plan: Vec<FsAction> = Vec::new();
                plan.push(FsAction::RemoveDirAll { path: target.clone_path() });
                plan.push(FsAction::CreateDirAll { path: target.clone_path() });
                plan.append(&mut acts);
                proof {
                    assert(plan.deep_view() =~= seq![
                        ActionModel::RemoveDirAll { path: target@ },
                        ActionModel::CreateDirAll { path: target@ },
                    ] + actsv);
                }
                Ok((target, plan))
            },
        }
    } else {
        if entries.len() == 0 {
            return Err(
                InstallError::InvalidState { detail: String::from_str("empty zip archive") },
            );
        }
        let scratch = mods_root.child(String::from_str("temp_extract"));
        proof {
            reveal_strlit("temp_extract");
            assert("temp_extract"@ =~= scratch_seg());
        }
        let e0_name = entries[0].name.as_str();
        proof {
            assert(evs[0] == entries@[0]@);
        }
        let n0 = e0_name.unicode_len();
        let top_str: &str = match find_char(e0_name, '/') {
            None => {
                proof {
                    lemma_first_index(e0_name@, '/', n0 as int);
                    assert(e0_name@.take(n0 as int) =~= e0_name@);
                }
                e0_name
            },
            Some(j) => {
                let t = e0_name.substring_char(0, j);
                proof {
                    lemma_first_index(e0_name@, '/', j as int);
                    assert(e0_name@.subrange(0, j as int) =~= e0_name@.take(j as int));
                }
                t
            },
        };
        let top = String::from_str(top_str);
        if !segment_is_plain(&top) {
            return Err(
                InstallError::InvalidState {
                    detail: String::from_str("zip wrapping folder has no usable name"),
                },
            );
        }
        match plan_entries(&scratch, entries) {
            Err(e) => Err(e),
            Ok(mut acts) => {
                let ghost actsv = acts.deep_view();
                let mut plan: Vec<FsAction> = Vec::new();
                plan.push(FsAction::RemoveDirAll { path: target.clone_path() });
                plan.push(FsAction::RemoveDirAll { path: scratch.clone_path() });
                plan.push(FsAction::CreateDirAll { path: scratch.clone_path() });
                plan.append(&mut acts);
                plan.push(
                    FsAction::RenameDir { from: scratch.child(top), to: target.clone_path() },
                );
                plan.push(FsAction::RemoveDirAll { path: scratch });
                proof {
                    assert(plan.deep_view() =~= seq![
                        ActionModel::RemoveDirAll { path: target@ },
                        ActionModel::RemoveDirAll { path: scratch@ },
                        ActionModel::CreateDirAll { path: scratch@ },
                    ] + actsv + seq![
                        ActionModel::RenameDir {
                            from: scratch@.push(zip_top(evs)),
                            to: target@,
                        },
                        ActionModel::RemoveDirAll { path: scratch@ },
                    ]);
                }
                Ok((target, plan))
            },
        }
    }
}

/// Plans a tar installation below `mods_root` as `mod_name`, per
/// `tar_plan`: the target is created and entries land directly under it.
/// An escaping entry is `PathTraversal`.
pub fn plan_tar(entries: &Vec<Entry>, mods_root: &SafePath, mod_name: &String) -> (r: Result<
    (SafePath, Vec<FsAction>),
    InstallError,
>)
    requires
        seg_ok(mod_name@),
    ensures
        r matches Ok(tp) ==> tp.0@ == mods_root@.push(mod_name@) && tar_plan(
            entries.deep_view(),
            mods_root@,
            mod_name@,
        ) == Some(tp.1.deep_view()),
        r is Ok <==> tar_plan(entries.deep_view(), mods_root@, mod_name@) is Some,
        r matches Err(e) ==> e matches InstallError::PathTraversal { .. },
{
    let target = mods_root.child(mod_name.clone());
    match plan_entries(&target, entries) {
        Err(e) => Err(e),
        Ok(mut acts) => {
            let ghost actsv = acts.deep_view();
            let mut plan: Vec<FsAction> = Vec::new();
            plan.push(FsAction::CreateDirAll { path: target.clone_path() });
            plan.append(&mut acts);
            proof {
                assert(plan.deep_view() =~= seq![
                    ActionModel::CreateDirAll { path: target@ },
                ] + actsv);
            }
            Ok((target, plan))
        },
    }
}

} // verus!

// ---- installer orchestration ----

verus! {

/// The explicit name as the specification sees it.
pub open spec fn explicit_view(explicit: Option<&String>) -> Option<Seq<char>> {
    match explicit {
        Some(e) => Some(e@),
        None => None,
    }
}

/// The plan's leading removal of an already-installed target, when the
/// caller reports that the target exists.
pub open spec fn install_prefix(target: Seq<Seq<char>>, target_exists: bool) -> Seq<ActionModel> {
    if target_exists {
        seq![ActionModel::RemoveDirAll { path: target }]
    } else {
        Seq::empty()
    }
}

/// The strategy the sniffed format selects.
pub open spec fn strategy_plan(
    fmt: ArchiveFormat,
    es: Seq<EntryModel>,
    root: Seq<Seq<char>>,
    name: Seq<char>,
) -> Option<Seq<ActionModel>> {
    match fmt {
        ArchiveFormat::Zip => zip_plan(es, root, name),
        ArchiveFormat::Tar => tar_plan(es, root, name),
        ArchiveFormat::GzipTar => tar_plan(es, root, name),
    }
}

/// What the payload's bytes decode to under the sniffed format: zip and
/// tar parse directly, and a gzip payload is decompressed and then parsed
/// as tar.
pub open spec fn parsed_entries(fmt: ArchiveFormat, b: Seq<u8>) -> Option<Seq<EntryModel>> {
    match fmt {
        ArchiveFormat::Zip => zip_parse(b),
        ArchiveFormat::Tar => tar_parse(b),
        ArchiveFormat::GzipTar => match gunzip_of(b) {
            None => None,
            Some(d) => tar_parse(d),
        },
    }
}

/// Plans one installation: sniffs the format from the payload's bytes,
/// resolves the installed directory's name, validates it as a plain
/// segment, removes an already-installed target first (the caller reports
/// with `target_exists` whether `mods_root/<name>` is on disk), and plans
/// the extraction strategy the format selects. Returns the target and the
/// actions to perform, every one of which stays inside `mods_root`.
pub fn plan_install(
    bytes: &Vec<u8>,
    url: &String,
    explicit: Option<&String>,
    mods_root: &SafePath,
    now_secs: u64,
    target_exists: bool,
) -> (r: Result<(SafePath, Vec<FsAction>), InstallError>)
    ensures
        ({
            let name = resolved_name(explicit_view(explicit), url@, now_secs);
            let target = mods_root@.push(name);
            let fm = classify_spec(bytes@);
            &&& (classify_spec(bytes@) is None ==> (r matches Err(e) && e
                matches InstallError::UnsupportedFormat { signature } && signature@
                == crate::detect::signature_bytes(bytes@)))
            &&& (classify_spec(bytes@) is Some && !seg_ok(name) ==> (r matches Err(e) && e
                matches InstallError::PathTraversal { path } && path@ == name))
            &&& (fm is Some && seg_ok(name) ==> match parsed_entries(fm->Some_0, bytes@) {
                None => r matches Err(e) && e matches InstallError::FileReadFailure { path }
                    && path@ == url@,
                Some(es) => {
                    &&& (r is Ok <==> strategy_plan(fm->Some_0, es, mods_root@, name) is Some)
                    &&& (r matches Ok(tp) ==> tp.0@ == target && tp.1.deep_view()
                        == install_prefix(target, target_exists) + strategy_plan(
                        fm->Some_0,
                        es,
                        mods_root@,
                        name,
                    )->Some_0)
                    &&& (r matches Err(e) ==> (e matches InstallError::PathTraversal { .. } || e
                        matches InstallError::InvalidState { .. }))
                },
            })
            &&& (r matches Ok(tp) ==> forall|i: int|
                0 <= i < tp.1.deep_view().len() ==> action_within(
                    mods_root@,
                    #[trigger] tp.1.deep_view()[i],
                ))
        }),
{
    let fmt = match classify(bytes) {
        Err(e) => return Err(e),
        Ok(f) => f,
    };
    let name = resolve_name(explicit, url.as_str(), now_secs);
    if !segment_is_plain(&name) {
        return Err(InstallError::PathTraversal { path: name });
    }
    let target = mods_root.child(name.clone());
    proof {
        lemma_extension_is_within(mods_root@, seq![name@]);
        assert(mods_root@ + seq![name@] =~= mods_root@.push(name@));
        assert(target@.len() == mods_root@.len() + 1);
    }
    let mut plan: Vec<FsAction> = Vec::new();
    if target_exists {
        match crate::uninstall::uninstall_mod(&target, mods_root, true) {
            Err(e) => {
                proof {
                    assert(false);
                }
                return Err(e);
            },
            Ok(a) => plan.push(a),
        }
    }
    proof {
        assert(plan.deep_view() =~= install_prefix(mods_root@.push(name@), target_exists));
    }
    let ghost prefixv = plan.deep_view();
    let planned: (SafePath, Vec<FsAction>) = match fmt {
        ArchiveFormat::Zip => {
            let es = match zip_entries(bytes) {
                None => return Err(InstallError::FileReadFailure { path: url.clone() }),
                Some(es) => es,
            };
            match plan_zip(&es, mods_root, &name) {
                Err(e) => return Err(e),
                Ok(tp) => tp,
            }
        },
        ArchiveFormat::Tar => {
            let es = match tar_entry_list(bytes) {
                None => return Err(InstallError::FileReadFailure { path: url.clone() }),
                Some(es) => es,
            };
            match plan_tar(&es, mods_root, &name) {
                Err(e) => return Err(e),
                Ok(tp) => tp,
            }
        },
        ArchiveFormat::GzipTar => {
            let decompressed = match gunzip(bytes) {
                None => return Err(InstallError::FileReadFailure { path: url.clone() }),
                Some(d) => d,
            };
            let es = match tar_entry_list(&decompressed) {
                None => return Err(InstallError::FileReadFailure { path: url.clone() }),
                Some(es) => es,
            };
            match plan_tar(&es, mods_root, &name) {
                Err(e) => return Err(e),
                Ok(tp) => tp,
            }
        },
    };
    let t = planned.0;
    let mut sub = planned.1;
    let ghost subv = sub.deep_view();
    plan.append(&mut sub);
    proof {
        assert(plan.deep_view() =~= prefixv + subv);
        let es0 = parsed_entries(fmt, bytes@)->Some_0;
        lemma_zip_plan_safe(es0, mods_root@, name@);
        lemma_tar_plan_safe(es0, mods_root@, name@);
        lemma_target_safe(mods_root@, name@);
        assert forall|i: int| 0 <= i < plan.deep_view().len() implies action_within(
            mods_root@,
            #[trigger] plan.deep_view()[i],
        ) by {
            if i < prefixv.len() {
                assert(plan.deep_view()[i] == ActionModel::RemoveDirAll { path: target@ });
            } else {
                let j = i - prefixv.len();
                assert(plan.deep_view()[i] == subv[j]);
                match fmt {
                    ArchiveFormat::Zip => {
                        let acts = zip_plan(es0, mods_root@, name@)->Some_0;
                        assert(subv == acts);
                        assert(action_within(mods_root@, acts[j]));
                    },
                    ArchiveFormat::Tar => {
                        let acts = tar_plan(es0, mods_root@, name@)->Some_0;
                        assert(subv == acts);
                        assert(action_within(mods_root@, acts[j]));
                    },
                    ArchiveFormat::GzipTar => {
                        let acts = tar_plan(es0, mods_root@, name@)->Some_0;
                        assert(subv == acts);
                        assert(action_within(mods_root@, acts[j]));
                    },
                }
            }
        }
    }
    Ok((t, plan))
}

} // verus!
