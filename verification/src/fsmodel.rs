use vstd::prelude::*;

use crate::archive::EntryModel;
use crate::detect::ArchiveFormat;
use crate::paths::{is_within, lemma_extension_is_within, seg_ok};
use crate::plan::{action_within, entries_actions, has_root_entry, install_prefix,
    lemma_entries_actions_safe, scratch_seg, strategy_plan, zip_top, ActionModel};

verus! {

/// One node of the modelled directory tree.
pub enum FsNode {
    Dir,
    File(Seq<u8>),
}

/// A model of the directory tree: each known path, as segments below the
/// same origin the plans use, maps to the node there. The model follows an
/// action's successful outcome; a run that stops on an error simply ends
/// earlier.
pub type FsModel = Map<Seq<Seq<char>>, FsNode>;

/// The tree with everything at or below `r` removed.
pub open spec fn remove_subtree(m: FsModel, r: Seq<Seq<char>>) -> FsModel {
    Map::new(|k: Seq<Seq<char>>| m.dom().contains(k) && !is_within(r, k), |k: Seq<Seq<char>>| m[k])
}

/// The tree with a directory at `p`, and at every prefix of `p` where
/// nothing exists yet.
pub open spec fn create_dirs(m: FsModel, p: Seq<Seq<char>>) -> FsModel {
    Map::new(
        |k: Seq<Seq<char>>| m.dom().contains(k) || is_within(k, p),
        |k: Seq<Seq<char>>|
            if m.dom().contains(k) {
                m[k]
            } else {
                FsNode::Dir
            },
    )
}

/// The tree with the subtree at `f` moved to `t` (clobbering anything that
/// was at `t`).
pub open spec fn rename_subtree(m: FsModel, f: Seq<Seq<char>>, t: Seq<Seq<char>>) -> FsModel {
    Map::new(
        |k: Seq<Seq<char>>|
            if is_within(t, k) {
                m.dom().contains(f + k.skip(t.len() as int))
            } else {
                !is_within(f, k) && m.dom().contains(k)
            },
        |k: Seq<Seq<char>>|
            if is_within(t, k) {
                m[f + k.skip(t.len() as int)]
            } else {
                m[k]
            },
    )
}

/// The tree after one action.
pub open spec fn apply_action(m: FsModel, a: ActionModel) -> FsModel {
    match a {
        ActionModel::RemoveDirAll { path } => remove_subtree(m, path),
        ActionModel::CreateDirAll { path } => create_dirs(m, path),
        ActionModel::WriteFile { path, data } => m.insert(path, FsNode::File(data)),
        ActionModel::RenameDir { from, to } => rename_subtree(m, from, to),
    }
}

/// The tree after a whole plan, first action first.
pub open spec fn apply_plan(m: FsModel, acts: Seq<ActionModel>) -> FsModel
    decreases acts.len(),
{
    if acts.len() == 0 {
        m
    } else {
        apply_plan(apply_action(m, acts[0]), acts.drop_first())
    }
}

/// A path inside the region spanned by the two roots `t` and `s`.
pub open spec fn path_in_region(t: Seq<Seq<char>>, s: Seq<Seq<char>>, p: Seq<Seq<char>>) -> bool {
    is_within(t, p) || is_within(s, p)
}

/// Every path the action touches lies in the region.
pub open spec fn action_in_region(t: Seq<Seq<char>>, s: Seq<Seq<char>>, a: ActionModel) -> bool {
    match a {
        ActionModel::RemoveDirAll { path } => path_in_region(t, s, path),
        ActionModel::CreateDirAll { path } => path_in_region(t, s, path),
        ActionModel::WriteFile { path, data } => path_in_region(t, s, path),
        ActionModel::RenameDir { from, to } => path_in_region(t, s, from) && path_in_region(
            t,
            s,
            to,
        ),
    }
}

/// The two trees hold the same thing at `k`.
pub open spec fn agree_at(m1: FsModel, m2: FsModel, k: Seq<Seq<char>>) -> bool {
    &&& (m1.dom().contains(k) <==> m2.dom().contains(k))
    &&& (m1.dom().contains(k) ==> m1[k] == m2[k])
}

/// The two trees hold the same thing everywhere in the region.
pub open spec fn agree_region(m1: FsModel, m2: FsModel, t: Seq<Seq<char>>, s: Seq<Seq<char>>) -> bool {
    forall|k: Seq<Seq<char>>| path_in_region(t, s, k) ==> agree_at(m1, m2, k)
}

/// Containment of paths is transitive.
proof fn lemma_within_trans(a: Seq<Seq<char>>, b: Seq<Seq<char>>, k: Seq<Seq<char>>)
    requires
        is_within(a, b),
        is_within(b, k),
    ensures
        is_within(a, k),
{
    assert(k.subrange(0, a.len() as int) =~= k.subrange(0, b.len() as int).subrange(
        0,
        a.len() as int,
    ));
}

/// Removal never adds anything, and clears its subtree in any tree.
proof fn lemma_remove_effects(m: FsModel, r: Seq<Seq<char>>)
    ensures
        forall|k: Seq<Seq<char>>| is_within(r, k) ==> !remove_subtree(m, r).dom().contains(k),
        forall|k: Seq<Seq<char>>| #[trigger]
            remove_subtree(m, r).dom().contains(k) ==> m.dom().contains(k) && remove_subtree(m, r)[k]
                == m[k],
{
}

/// An action confined to the region keeps two trees that agree on the
/// region in agreement there.
proof fn lemma_action_preserves_agreement(
    m1: FsModel,
    m2: FsModel,
    t: Seq<Seq<char>>,
    s: Seq<Seq<char>>,
    a: ActionModel,
)
    requires
        agree_region(m1, m2, t, s),
        action_in_region(t, s, a),
    ensures
        agree_region(apply_action(m1, a), apply_action(m2, a), t, s),
{
    let r1 = apply_action(m1, a);
    let r2 = apply_action(m2, a);
    assert forall|k: Seq<Seq<char>>| path_in_region(t, s, k) implies agree_at(r1, r2, k) by {
        assert(agree_at(m1, m2, k));
        match a {
            ActionModel::RemoveDirAll { path } => {},
            ActionModel::CreateDirAll { path } => {},
            ActionModel::WriteFile { path, data } => {},
            ActionModel::RenameDir { from, to } => {
                if is_within(to, k) {
                    let src = from + k.skip(to.len() as int);
                    crate::paths::lemma_extension_is_within(from, k.skip(to.len() as int));
                    if is_within(t, from) {
                        lemma_within_trans(t, from, src);
                    } else {
                        lemma_within_trans(s, from, src);
                    }
                    assert(agree_at(m1, m2, src));
                }
            },
        }
    }
}

/// A plan confined to the region keeps two trees that agree on the region
/// in agreement there.
proof fn lemma_plan_preserves_agreement(
    m1: FsModel,
    m2: FsModel,
    t: Seq<Seq<char>>,
    s: Seq<Seq<char>>,
    acts: Seq<ActionModel>,
)
    requires
        agree_region(m1, m2, t, s),
        forall|i: int| 0 <= i < acts.len() ==> action_in_region(t, s, #[trigger] acts[i]),
    ensures
        agree_region(apply_plan(m1, acts), apply_plan(m2, acts), t, s),
    decreases acts.len(),
{
    if acts.len() > 0 {
        lemma_action_preserves_agreement(m1, m2, t, s, acts[0]);
        lemma_plan_preserves_agreement(
            apply_action(m1, acts[0]),
            apply_action(m2, acts[0]),
            t,
            s,
            acts.drop_first(),
        );
    }
}

} // verus!

// ---- the last-writer-wins law ----

verus! {

proof fn lemma_apply_one(m: FsModel, a0: ActionModel)
    ensures
        apply_plan(m, seq![a0]) == apply_action(m, a0),
{
    let acts = seq![a0];
    assert(acts.drop_first() =~= Seq::<ActionModel>::empty());
    assert(apply_plan(m, acts) == apply_plan(apply_action(m, acts[0]), acts.drop_first()));
    assert(apply_plan(apply_action(m, a0), Seq::<ActionModel>::empty()) == apply_action(m, a0));
}

proof fn lemma_apply_three(m: FsModel, a0: ActionModel, a1: ActionModel, a2: ActionModel)
    ensures
        apply_plan(m, seq![a0, a1, a2]) == apply_action(
            apply_action(apply_action(m, a0), a1),
            a2,
        ),
{
    let acts = seq![a0, a1, a2];
    assert(acts.drop_first() =~= seq![a1, a2]);
    assert(seq![a1, a2].drop_first() =~= seq![a2]);
    assert(apply_plan(m, acts) == apply_plan(apply_action(m, acts[0]), acts.drop_first()));
    assert(apply_plan(m, acts) == apply_plan(apply_action(m, a0), seq![a1, a2]));
    assert(apply_plan(apply_action(m, a0), seq![a1, a2]) == apply_plan(
        apply_action(apply_action(m, a0), a1),
        seq![a2],
    ));
    lemma_apply_one(apply_action(apply_action(m, a0), a1), a2);
}

/// A plan acts as its first `j` actions followed by the rest.
proof fn lemma_apply_split(m: FsModel, acts: Seq<ActionModel>, j: int)
    requires
        0 <= j <= acts.len(),
    ensures
        apply_plan(m, acts) == apply_plan(apply_plan(m, acts.take(j)), acts.skip(j)),
    decreases j,
{
    if j == 0 {
        assert(acts.take(0) =~= Seq::<ActionModel>::empty());
        assert(acts.skip(0) =~= acts);
    } else {
        lemma_apply_split(apply_action(m, acts[0]), acts.drop_first(), j - 1);
        assert(acts.drop_first().take(j - 1) =~= acts.take(j).drop_first());
        assert(acts.drop_first().skip(j - 1) =~= acts.skip(j));
        assert(acts.take(j)[0] == acts[0]);
    }
}

/// An action wholly below `root` is in any region that `root` spans.
proof fn lemma_action_within_region(
    root: Seq<Seq<char>>,
    t: Seq<Seq<char>>,
    s: Seq<Seq<char>>,
    a: ActionModel,
)
    requires
        action_within(root, a),
        root == t || root == s,
    ensures
        action_in_region(t, s, a),
{
}

/// Reinstalling over a previously installed mod is last-writer-wins: with
/// the pre-install removal in front, an installation plan leaves below the
/// target the same content from any starting disk state, so nothing an
/// earlier install wrote survives unless the new archive writes it too.
pub proof fn lemma_reinstall_last_writer_wins(
    fmt: ArchiveFormat,
    es: Seq<EntryModel>,
    root: Seq<Seq<char>>,
    name: Seq<char>,
    m1: FsModel,
    m2: FsModel,
)
    requires
        seg_ok(name),
        strategy_plan(fmt, es, root, name) is Some,
    ensures
        ({
            let target = root.push(name);
            let plan = install_prefix(target, true) + strategy_plan(fmt, es, root, name)->Some_0;
            forall|k: Seq<Seq<char>>| is_within(target, k) ==> agree_at(
                apply_plan(m1, plan),
                apply_plan(m2, plan),
                k,
            )
        }),
{
    let t = root.push(name);
    let s = root.push(scratch_seg());
    let sub = strategy_plan(fmt, es, root, name)->Some_0;
    let plan = install_prefix(t, true) + sub;
    let rt = ActionModel::RemoveDirAll { path: t };
    let rs = ActionModel::RemoveDirAll { path: s };
    assert(plan[0] == rt);
    if fmt is Zip && !has_root_entry(es) {
        let acts = entries_actions(s, es)->Some_0;
        lemma_entries_actions_safe(s, es);
        let tail = seq![
            ActionModel::RenameDir { from: s.push(zip_top(es)), to: t },
            ActionModel::RemoveDirAll { path: s },
        ];
        assert(sub =~= seq![rt, rs, ActionModel::CreateDirAll { path: s }] + acts + tail);
        assert(plan.take(3) =~= seq![rt, rt, rs]);
        lemma_apply_three(m1, rt, rt, rs);
        lemma_apply_three(m2, rt, rt, rs);
        let m1c = apply_plan(m1, plan.take(3));
        let m2c = apply_plan(m2, plan.take(3));
        assert(agree_region(m1c, m2c, t, s)) by {
            lemma_remove_effects(m1, t);
            lemma_remove_effects(apply_action(m1, rt), t);
            lemma_remove_effects(apply_action(apply_action(m1, rt), rt), s);
            lemma_remove_effects(m2, t);
            lemma_remove_effects(apply_action(m2, rt), t);
            lemma_remove_effects(apply_action(apply_action(m2, rt), rt), s);
        }
        assert(is_within(t, t)) by {
            assert(t.subrange(0, t.len() as int) =~= t);
        }
        assert(is_within(s, s)) by {
            assert(s.subrange(0, s.len() as int) =~= s);
        }
        assert(is_within(s, s.push(zip_top(es)))) by {
            lemma_extension_is_within(s, seq![zip_top(es)]);
            assert(s + seq![zip_top(es)] =~= s.push(zip_top(es)));
        }
        assert forall|i: int| 0 <= i < plan.skip(3).len() implies action_in_region(
            t,
            s,
            #[trigger] plan.skip(3)[i],
        ) by {
            let a = plan.skip(3)[i];
            assert(a == plan[i + 3]);
            assert(plan[i + 3] == sub[i + 2]);
            let head = seq![rt, rs, ActionModel::CreateDirAll { path: s }];
            assert(sub[i + 2] == (head + acts + tail)[i + 2]);
            if i == 0 {
                assert(a == head[2]);
            } else if i <= acts.len() {
                assert((head + acts + tail)[i + 2] == acts[i - 1]);
                lemma_action_within_region(s, t, s, a);
            } else {
                assert((head + acts + tail)[i + 2] == tail[i - 1 - acts.len()]);
            }
        }
        lemma_apply_split(m1, plan, 3);
        lemma_apply_split(m2, plan, 3);
        lemma_plan_preserves_agreement(m1c, m2c, t, s, plan.skip(3));
    } else {
        lemma_entries_actions_safe(t, es);
        let acts = entries_actions(t, es)->Some_0;
        assert(plan.take(1) =~= seq![rt]);
        lemma_apply_one(m1, rt);
        lemma_apply_one(m2, rt);
        let m1a = apply_plan(m1, plan.take(1));
        let m2a = apply_plan(m2, plan.take(1));
        assert(agree_region(m1a, m2a, t, t)) by {
            lemma_remove_effects(m1, t);
            lemma_remove_effects(m2, t);
        }
        if fmt is Zip {
            assert(sub =~= seq![rt, ActionModel::CreateDirAll { path: t }] + acts);
        } else {
            assert(sub =~= seq![ActionModel::CreateDirAll { path: t }] + acts);
        }
        assert(is_within(t, t)) by {
            assert(t.subrange(0, t.len() as int) =~= t);
        }
        assert forall|i: int| 0 <= i < plan.skip(1).len() implies action_in_region(
            t,
            t,
            #[trigger] plan.skip(1)[i],
        ) by {
            let a = plan.skip(1)[i];
            assert(a == sub[i]);
            if fmt is Zip {
                if i >= 2 {
                    assert(a == acts[i - 2]);
                    lemma_action_within_region(t, t, t, a);
                }
            } else {
                if i >= 1 {
                    assert(a == acts[i - 1]);
                    lemma_action_within_region(t, t, t, a);
                }
            }
        }
        lemma_apply_split(m1, plan, 1);
        lemma_apply_split(m2, plan, 1);
        lemma_plan_preserves_agreement(m1a, m2a, t, t, plan.skip(1));
    }
}

} // verus!
