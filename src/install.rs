//! Installing, updating and removing the content package: the plan of file
//! operations that each produces, and what running a plan does to the target
//! directory, modelled as a map from relative file paths to contents.
use vstd::prelude::*;
use vstd::string::*;
use crate::discovery::{contains_name, opt_path, DirTree, GameInfo, MARKER_FILE};
use crate::release::TranslationVersion;

verus! {

/// Name of the directory, inside the target, that holds the single backup.
pub const BACKUP_DIR: &'static str = "translation_backup";

/// A relative path, one name per component.
pub type RelPath = Seq<Seq<char>>;

/// The files of a directory tree: each file's path and contents.
pub type Files = Map<RelPath, Seq<u8>>;

/// A manifest: version, installation time, and the footprint's names.
pub type ManifestV = (Seq<char>, Seq<char>, Seq<Seq<char>>);

/// The target directory: its files, and the manifest it holds, if any.
pub type DirState = (Files, Option<ManifestV>);

/// One top-level entry of the package footprint.
pub struct FootprintEntry {
    pub name: String,
    pub is_dir: bool,
}

/// The entries that make up the package's footprint in the target directory.
/// The same set is backed up, removed, and recorded in the manifest. The
/// manifest file itself is not part of it: it is written after each install
/// and deleted on uninstall, and no copy of it is kept in the backup.
pub struct BackupSet {
    pub entries: Vec<FootprintEntry>,
}

/// The names of the footprint, in order.
pub open spec fn set_names(set: BackupSet) -> Seq<Seq<char>> {
    set.entries@.map_values(|e: FootprintEntry| e.name@)
}

/// The persisted record of the installed package.
pub struct TranslationInfo {
    pub version: String,
    pub installed_date: String,
    pub files: Vec<String>,
}

/// The manifest a record stands for.
pub open spec fn info_view(i: TranslationInfo) -> ManifestV {
    (i.version@, i.installed_date@, i.files.deep_view())
}

/// A file operation on the target directory.
pub enum FsOp {
    /// Delete the backup directory, then create it empty.
    ClearBackup,
    /// Copy the entry, when present, into the backup directory.
    BackupEntry { name: String, is_dir: bool },
    /// Delete the entry, when present.
    RemoveEntry { name: String, is_dir: bool },
    /// Copy the package root's entry into the target, replacing files of the same path.
    CopyIn { name: String },
    /// Write the manifest.
    WriteManifest { info: TranslationInfo },
    /// Delete the manifest, when present.
    RemoveManifest,
}

/// A file operation, as the model sees it.
pub enum OpV {
    ClearBackup,
    BackupEntry(Seq<char>),
    RemoveEntry(Seq<char>),
    CopyIn(Seq<char>),
    WriteManifest(ManifestV),
    RemoveManifest,
}

/// The stages of an operation, in the order they run.
#[derive(Clone, Copy, Debug, PartialEq, Eq, Structural)]
pub enum Stage {
    Preparing,
    Downloading,
    Extracting,
    BackingUp,
    Removing,
    Copying,
    Finalizing,
    CleaningUp,
    Done,
}

/// One step of a plan: announce a stage, or perform a file operation.
pub enum Step {
    Report(Stage),
    Apply(FsOp),
}

/// A step, as the model sees it.
pub enum StepV {
    Report(Stage),
    Apply(OpV),
}

pub open spec fn op_view(o: FsOp) -> OpV {
    match o {
        FsOp::ClearBackup => OpV::ClearBackup,
        FsOp::BackupEntry { name, is_dir } => OpV::BackupEntry(name@),
        FsOp::RemoveEntry { name, is_dir } => OpV::RemoveEntry(name@),
        FsOp::CopyIn { name } => OpV::CopyIn(name@),
        FsOp::WriteManifest { info } => OpV::WriteManifest(info_view(info)),
        FsOp::RemoveManifest => OpV::RemoveManifest,
    }
}

pub open spec fn step_view(s: Step) -> StepV {
    match s {
        Step::Report(g) => StepV::Report(g),
        Step::Apply(o) => StepV::Apply(op_view(o)),
    }
}

pub open spec fn steps_view(s: Seq<Step>) -> Seq<StepV> {
    s.map_values(|x: Step| step_view(x))
}

/// The path lies inside the top-level entry `n`.
pub open spec fn under(p: RelPath, n: Seq<char>) -> bool {
    p.len() > 0 && p[0] == n
}

/// The path lies inside one of the top-level entries `names`.
pub open spec fn under_any(p: RelPath, names: Seq<Seq<char>>) -> bool {
    p.len() > 0 && names.contains(p[0])
}

/// The files outside the top-level entry `n`.
pub open spec fn without(f: Files, n: Seq<char>) -> Files {
    Map::new(|p: RelPath| f.contains_key(p) && !under(p, n), |p: RelPath| f[p])
}

/// The files inside one of the top-level entries `names`.
pub open spec fn pick(f: Files, names: Seq<Seq<char>>) -> Files {
    Map::new(|p: RelPath| f.contains_key(p) && under_any(p, names), |p: RelPath| f[p])
}

/// The files outside every top-level entry of `names`.
pub open spec fn strip(f: Files, names: Seq<Seq<char>>) -> Files {
    Map::new(|p: RelPath| f.contains_key(p) && !under_any(p, names), |p: RelPath| f[p])
}

/// The copies, inside the backup directory, of the files of entry `n`.
pub open spec fn backup_of(f: Files, n: Seq<char>) -> Files {
    Map::new(
        |p: RelPath| p.len() > 1 && p[0] == BACKUP_DIR@ && f.contains_key(p.drop_first()) && under(p.drop_first(), n),
        |p: RelPath| f[p.drop_first()],
    )
}

/// What one operation does, with `pkg` the files of the package root.
pub open spec fn apply_op(o: OpV, s: DirState, pkg: Files) -> DirState {
    match o {
        OpV::ClearBackup => (without(s.0, BACKUP_DIR@), s.1),
        OpV::BackupEntry(n) => (s.0.union_prefer_right(backup_of(s.0, n)), s.1),
        OpV::RemoveEntry(n) => (without(s.0, n), s.1),
        OpV::CopyIn(n) => (s.0.union_prefer_right(pick(pkg, seq![n])), s.1),
        OpV::WriteManifest(m) => (s.0, Some(m)),
        OpV::RemoveManifest => (s.0, None),
    }
}

pub open spec fn apply_step(st: StepV, s: DirState, pkg: Files) -> DirState {
    match st {
        StepV::Report(_) => s,
        StepV::Apply(o) => apply_op(o, s, pkg),
    }
}

/// The state after running `steps` in order from `s`.
pub open spec fn run(steps: Seq<StepV>, s: DirState, pkg: Files) -> DirState
    decreases steps.len(),
{
    if steps.len() == 0 {
        s
    } else {
        apply_step(steps.last(), run(steps.drop_last(), s, pkg), pkg)
    }
}

/// The manifest as a reader finds it.
pub open spec fn read_manifest(s: DirState) -> Option<ManifestV> {
    s.1
}

pub open spec fn backup_phase(names: Seq<Seq<char>>) -> Seq<StepV> {
    seq![StepV::Apply(OpV::ClearBackup)] + names.map_values(|n: Seq<char>| StepV::Apply(OpV::BackupEntry(n)))
}

pub open spec fn removal_phase(names: Seq<Seq<char>>) -> Seq<StepV> {
    names.map_values(|n: Seq<char>| StepV::Apply(OpV::RemoveEntry(n)))
}

pub open spec fn copy_phase(names: Seq<Seq<char>>) -> Seq<StepV> {
    names.map_values(|n: Seq<char>| StepV::Apply(OpV::CopyIn(n)))
}

/// The steps of an install over a target whose footprint is `names`: back up
/// when a manifest exists, remove the footprint, copy in the package root's
/// entries `pkg_names`, and write the manifest `m`.
pub open spec fn install_steps(names: Seq<Seq<char>>, had_manifest: bool, pkg_names: Seq<Seq<char>>, m: ManifestV) -> Seq<
    StepV,
> {
    seq![StepV::Report(Stage::BackingUp)] + (if had_manifest {
        backup_phase(names)
    } else {
        Seq::empty()
    }) + seq![StepV::Report(Stage::Removing)] + removal_phase(names) + seq![StepV::Report(Stage::Copying)]
        + copy_phase(pkg_names) + seq![StepV::Report(Stage::Finalizing), StepV::Apply(OpV::WriteManifest(m))]
}

/// The steps of an uninstall: back up, remove the footprint, delete the manifest.
pub open spec fn uninstall_steps(names: Seq<Seq<char>>) -> Seq<StepV> {
    seq![StepV::Report(Stage::BackingUp)] + backup_phase(names) + seq![StepV::Report(Stage::Removing)]
        + removal_phase(names) + seq![StepV::Apply(OpV::RemoveManifest)]
}

/// Number of leading install steps that announce or perform the backup.
pub open spec fn backup_end(names: Seq<Seq<char>>, had_manifest: bool) -> int {
    if had_manifest {
        names.len() as int + 2
    } else {
        1int
    }
}

/// Steps that touch nothing but the backup directory.
pub open spec fn backup_only(steps: Seq<StepV>) -> bool {
    forall|i: int| 0 <= i < steps.len() ==> match #[trigger] steps[i] {
        StepV::Report(_) => true,
        StepV::Apply(OpV::ClearBackup) => true,
        StepV::Apply(OpV::BackupEntry(_)) => true,
        _ => false,
    }
}

proof fn lemma_run_concat(a: Seq<StepV>, b: Seq<StepV>, s: DirState, pkg: Files)
    ensures
        run(a + b, s, pkg) == run(b, run(a, s, pkg), pkg),
    decreases b.len(),
{
    if b.len() == 0 {
        assert(a + b =~= a);
    } else {
        lemma_run_concat(a, b.drop_last(), s, pkg);
        assert((a + b).drop_last() =~= a + b.drop_last());
        assert((a + b).last() == b.last());
    }
}

proof fn lemma_run_one(x: StepV, s: DirState, pkg: Files)
    ensures
        run(seq![x], s, pkg) == apply_step(x, s, pkg),
{
    assert(seq![x].drop_last() =~= Seq::<StepV>::empty());
    assert(run(Seq::<StepV>::empty(), s, pkg) == s);
}

proof fn lemma_backup_only_keeps(steps: Seq<StepV>, s: DirState, pkg: Files)
    requires
        backup_only(steps),
    ensures
        without(run(steps, s, pkg).0, BACKUP_DIR@) == without(s.0, BACKUP_DIR@),
        run(steps, s, pkg).1 == s.1,
    decreases steps.len(),
{
    if steps.len() > 0 {
        let d = steps.drop_last();
        assert(backup_only(d)) by {
            assert forall|i: int| 0 <= i < d.len() implies match #[trigger] d[i] {
                StepV::Report(_) => true,
                StepV::Apply(OpV::ClearBackup) => true,
                StepV::Apply(OpV::BackupEntry(_)) => true,
                _ => false,
            } by {
                assert(d[i] == steps[i]);
            }
        }
        lemma_backup_only_keeps(d, s, pkg);
        let t = run(d, s, pkg);
        let last = steps[steps.len() - 1];
        let u = run(steps, s, pkg);
        assert(u == apply_step(last, t, pkg));
        match last {
            StepV::Report(_) => {},
            StepV::Apply(OpV::ClearBackup) => {
                assert(without(u.0, BACKUP_DIR@) =~= without(t.0, BACKUP_DIR@));
            },
            StepV::Apply(OpV::BackupEntry(n)) => {
                assert(without(u.0, BACKUP_DIR@) =~= without(t.0, BACKUP_DIR@));
            },
            _ => {},
        }
    }
}

proof fn lemma_run_removal(names: Seq<Seq<char>>, s: DirState, pkg: Files)
    ensures
        run(removal_phase(names), s, pkg) == (strip(s.0, names), s.1),
    decreases names.len(),
{
    if names.len() == 0 {
        assert(strip(s.0, names) =~= s.0);
    } else {
        let d = names.drop_last();
        lemma_run_removal(d, s, pkg);
        assert(removal_phase(names).drop_last() =~= removal_phase(d));
        assert forall|p: RelPath| #[trigger] under_any(p, names) == (under_any(p, d) || under(p, names.last())) by {
            if under_any(p, names) {
                let k = choose|k: int| 0 <= k < names.len() && names[k] == p[0];
                if k < d.len() {
                    assert(d[k] == p[0]);
                }
            }
            if under_any(p, d) {
                let k = choose|k: int| 0 <= k < d.len() && d[k] == p[0];
                assert(names[k] == p[0]);
            }
        }
        assert(without(strip(s.0, d), names.last()) =~= strip(s.0, names));
    }
}

proof fn lemma_run_copy(names: Seq<Seq<char>>, s: DirState, pkg: Files)
    ensures
        run(copy_phase(names), s, pkg) == (s.0.union_prefer_right(pick(pkg, names)), s.1),
    decreases names.len(),
{
    if names.len() == 0 {
        assert(s.0.union_prefer_right(pick(pkg, names)) =~= s.0);
    } else {
        let d = names.drop_last();
        lemma_run_copy(d, s, pkg);
        assert(copy_phase(names).drop_last() =~= copy_phase(d));
        assert forall|p: RelPath| #[trigger] under_any(p, names) == (under_any(p, d) || under(p, names.last())) by {
            if under_any(p, names) {
                let k = choose|k: int| 0 <= k < names.len() && names[k] == p[0];
                if k < d.len() {
                    assert(d[k] == p[0]);
                }
            }
            if under_any(p, d) {
                let k = choose|k: int| 0 <= k < d.len() && d[k] == p[0];
                assert(names[k] == p[0]);
            }
        }
        assert forall|p: RelPath| #[trigger] under_any(p, seq![names.last()]) == under(p, names.last()) by {
            if under_any(p, seq![names.last()]) {
                let k = choose|k: int| 0 <= k < 1 && seq![names.last()][k] == p[0];
            }
            if under(p, names.last()) {
                assert(seq![names.last()][0] == p[0]);
            }
        }
        assert(s.0.union_prefer_right(pick(pkg, d)).union_prefer_right(pick(pkg, seq![names.last()]))
            =~= s.0.union_prefer_right(pick(pkg, names)));
    }
}

proof fn lemma_backup_phase_only(names: Seq<Seq<char>>)
    ensures
        backup_only(backup_phase(names)),
{
    let b = backup_phase(names);
    assert forall|i: int| 0 <= i < b.len() implies match #[trigger] b[i] {
        StepV::Report(_) => true,
        StepV::Apply(OpV::ClearBackup) => true,
        StepV::Apply(OpV::BackupEntry(_)) => true,
        _ => false,
    } by {
        if i > 0 {
            assert(b[i] == StepV::Apply(OpV::BackupEntry(names[i - 1])));
        }
    }
}

/// Writing a manifest and reading it back gives the manifest written.
pub proof fn lemma_manifest_round_trip(s: DirState, m: ManifestV, pkg: Files)
    ensures
        read_manifest(apply_op(OpV::WriteManifest(m), s, pkg)) == Some(m),
        apply_op(OpV::WriteManifest(m), s, pkg).0 == s.0,
{
}

/// After deleting the manifest, reading finds none, whether or not one existed.
pub proof fn lemma_manifest_delete(s: DirState, pkg: Files)
    ensures
        read_manifest(apply_op(OpV::RemoveManifest, s, pkg)) is None,
        apply_op(OpV::RemoveManifest, s, pkg).0 == s.0,
{
}

/// A failure while backing up, after any number of the backup steps, leaves
/// every file outside the backup directory, and the manifest, as they were.
pub proof fn lemma_backup_failure_leaves_target(
    names: Seq<Seq<char>>,
    had_manifest: bool,
    pkg_names: Seq<Seq<char>>,
    m: ManifestV,
    s: DirState,
    pkg: Files,
    k: int,
)
    requires
        0 <= k <= backup_end(names, had_manifest),
    ensures
        ({
            let t = run(install_steps(names, had_manifest, pkg_names, m).take(k), s, pkg);
            &&& without(t.0, BACKUP_DIR@) == without(s.0, BACKUP_DIR@)
            &&& t.1 == s.1
        }),
{
    let all = install_steps(names, had_manifest, pkg_names, m);
    let pre = all.take(k);
    let head = seq![StepV::Report(Stage::BackingUp)] + (if had_manifest {
        backup_phase(names)
    } else {
        Seq::empty()
    });
    lemma_backup_phase_only(names);
    assert(head.len() == backup_end(names, had_manifest));
    assert forall|i: int| 0 <= i < pre.len() implies match #[trigger] pre[i] {
        StepV::Report(_) => true,
        StepV::Apply(OpV::ClearBackup) => true,
        StepV::Apply(OpV::BackupEntry(_)) => true,
        _ => false,
    } by {
        assert(pre[i] == all[i]);
        assert(all[i] == head[i]);
        if i > 0 {
            let b = backup_phase(names);
            assert(head[i] == b[i - 1]);
        }
    }
    lemma_backup_only_keeps(pre, s, pkg);
}

/// A failure while backing up before an uninstall, after any number of the
/// backup steps, leaves every file outside the backup directory, and the
/// manifest, as they were.
pub proof fn lemma_uninstall_backup_failure_leaves_target(names: Seq<Seq<char>>, s: DirState, pkg: Files, k: int)
    requires
        0 <= k <= names.len() + 2,
    ensures
        ({
            let t = run(uninstall_steps(names).take(k), s, pkg);
            &&& without(t.0, BACKUP_DIR@) == without(s.0, BACKUP_DIR@)
            &&& t.1 == s.1
        }),
{
    let all = uninstall_steps(names);
    let pre = all.take(k);
    let head = seq![StepV::Report(Stage::BackingUp)] + backup_phase(names);
    lemma_backup_phase_only(names);
    assert forall|i: int| 0 <= i < pre.len() implies match #[trigger] pre[i] {
        StepV::Report(_) => true,
        StepV::Apply(OpV::ClearBackup) => true,
        StepV::Apply(OpV::BackupEntry(_)) => true,
        _ => false,
    } by {
        assert(pre[i] == all[i]);
        assert(all[i] == head[i]);
        if i > 0 {
            let b = backup_phase(names);
            assert(head[i] == b[i - 1]);
        }
    }
    lemma_backup_only_keeps(pre, s, pkg);
}

/// An install leaves, inside the footprint, exactly the package's files: none
/// of what the footprint held before remains, whatever the earlier version
/// was; and it records the new manifest. `pkg_names` must list every
/// top-level entry of the package root that lies in the footprint.
pub proof fn lemma_install_footprint(
    names: Seq<Seq<char>>,
    had_manifest: bool,
    pkg_names: Seq<Seq<char>>,
    m: ManifestV,
    s: DirState,
    pkg: Files,
)
    requires
        forall|p: RelPath| #[trigger] pkg.contains_key(p) && under_any(p, names) ==> pkg_names.contains(p[0]),
    ensures
        ({
            let t = run(install_steps(names, had_manifest, pkg_names, m), s, pkg);
            &&& forall|p: RelPath| #[trigger] under_any(p, names) ==> (t.0.contains_key(p) <==> pkg.contains_key(p))
            &&& forall|p: RelPath| #[trigger] under_any(p, names) && pkg.contains_key(p) ==> t.0[p] == pkg[p]
            &&& read_manifest(t) == Some(m)
        }),
{
    let a = seq![StepV::Report(Stage::BackingUp)] + (if had_manifest {
        backup_phase(names)
    } else {
        Seq::empty()
    }) + seq![StepV::Report(Stage::Removing)];
    let b = removal_phase(names);
    let c = seq![StepV::Report(Stage::Copying)];
    let d = copy_phase(pkg_names);
    let e = seq![StepV::Report(Stage::Finalizing), StepV::Apply(OpV::WriteManifest(m))];
    assert(install_steps(names, had_manifest, pkg_names, m) =~= a + b + c + d + e);
    lemma_run_concat(a + b + c + d, e, s, pkg);
    lemma_run_concat(a + b + c, d, s, pkg);
    lemma_run_concat(a + b, c, s, pkg);
    lemma_run_concat(a, b, s, pkg);
    let sa = run(a, s, pkg);
    lemma_run_removal(names, sa, pkg);
    let sb = run(b, sa, pkg);
    lemma_run_one(StepV::Report(Stage::Copying), sb, pkg);
    lemma_run_copy(pkg_names, sb, pkg);
    let sd = run(d, sb, pkg);
    assert(e =~= seq![StepV::Report(Stage::Finalizing)] + seq![StepV::Apply(OpV::WriteManifest(m))]);
    lemma_run_concat(seq![StepV::Report(Stage::Finalizing)], seq![StepV::Apply(OpV::WriteManifest(m))], sd, pkg);
    lemma_run_one(StepV::Report(Stage::Finalizing), sd, pkg);
    lemma_run_one(StepV::Apply(OpV::WriteManifest(m)), sd, pkg);
    let t = run(e, sd, pkg);
    assert(t == (sd.0, Some(m)));
    assert forall|p: RelPath| #[trigger] under_any(p, names) implies (t.0.contains_key(p) <==> pkg.contains_key(p)) by {
        if pkg.contains_key(p) {
            assert(pkg_names.contains(p[0]));
            assert(under_any(p, pkg_names));
        }
    }
    assert forall|p: RelPath| #[trigger] under_any(p, names) && pkg.contains_key(p) implies t.0[p] == pkg[p] by {
        assert(pkg_names.contains(p[0]));
        assert(under_any(p, pkg_names));
    }
}

/// On a target that holds no footprint entry and no manifest, installing and
/// then uninstalling leaves every file outside the backup directory as it was
/// and no manifest, provided the package root holds only footprint entries.
pub proof fn lemma_install_then_uninstall_restores(
    names: Seq<Seq<char>>,
    pkg_names: Seq<Seq<char>>,
    m: ManifestV,
    s: DirState,
    pkg: Files,
)
    requires
        forall|p: RelPath| #[trigger] s.0.contains_key(p) ==> !under_any(p, names),
        s.1 is None,
        forall|i: int| 0 <= i < pkg_names.len() ==> names.contains(#[trigger] pkg_names[i]),
    ensures
        ({
            let t = run(uninstall_steps(names), run(install_steps(names, false, pkg_names, m), s, pkg), pkg);
            &&& without(t.0, BACKUP_DIR@) == without(s.0, BACKUP_DIR@)
            &&& read_manifest(t) is None
        }),
{
    // the install, phase by phase
    let a = seq![StepV::Report(Stage::BackingUp)] + Seq::<StepV>::empty() + seq![StepV::Report(Stage::Removing)];
    let b = removal_phase(names);
    let c = seq![StepV::Report(Stage::Copying)];
    let d = copy_phase(pkg_names);
    let e = seq![StepV::Report(Stage::Finalizing), StepV::Apply(OpV::WriteManifest(m))];
    assert(install_steps(names, false, pkg_names, m) =~= a + b + c + d + e);
    lemma_run_concat(a + b + c + d, e, s, pkg);
    lemma_run_concat(a + b + c, d, s, pkg);
    lemma_run_concat(a + b, c, s, pkg);
    lemma_run_concat(a, b, s, pkg);
    assert(run(a, s, pkg) == s) by {
        assert(a =~= seq![StepV::Report(Stage::BackingUp)] + seq![StepV::Report(Stage::Removing)]);
        lemma_run_concat(seq![StepV::Report(Stage::BackingUp)], seq![StepV::Report(Stage::Removing)], s, pkg);
        lemma_run_one(StepV::Report(Stage::BackingUp), s, pkg);
        lemma_run_one(StepV::Report(Stage::Removing), s, pkg);
    }
    lemma_run_removal(names, s, pkg);
    let sb = run(b, s, pkg);
    assert(sb.0 =~= s.0);
    lemma_run_one(StepV::Report(Stage::Copying), sb, pkg);
    lemma_run_copy(pkg_names, sb, pkg);
    let sd = run(d, sb, pkg);
    assert(e =~= seq![StepV::Report(Stage::Finalizing)] + seq![StepV::Apply(OpV::WriteManifest(m))]);
    lemma_run_concat(seq![StepV::Report(Stage::Finalizing)], seq![StepV::Apply(OpV::WriteManifest(m))], sd, pkg);
    lemma_run_one(StepV::Report(Stage::Finalizing), sd, pkg);
    lemma_run_one(StepV::Apply(OpV::WriteManifest(m)), sd, pkg);
    let installed = run(install_steps(names, false, pkg_names, m), s, pkg);
    assert(installed.0 == sd.0);
    // the uninstall, phase by phase
    let ua = seq![StepV::Report(Stage::BackingUp)] + backup_phase(names);
    let ub = seq![StepV::Report(Stage::Removing)];
    let uc = removal_phase(names);
    let ud = seq![StepV::Apply(OpV::RemoveManifest)];
    assert(uninstall_steps(names) =~= ua + ub + uc + ud);
    lemma_run_concat(ua + ub + uc, ud, installed, pkg);
    lemma_run_concat(ua + ub, uc, installed, pkg);
    lemma_run_concat(ua, ub, installed, pkg);
    lemma_backup_phase_only(names);
    assert(backup_only(ua)) by {
        assert forall|i: int| 0 <= i < ua.len() implies match #[trigger] ua[i] {
            StepV::Report(_) => true,
            StepV::Apply(OpV::ClearBackup) => true,
            StepV::Apply(OpV::BackupEntry(_)) => true,
            _ => false,
        } by {
            if i > 0 {
                assert(ua[i] == backup_phase(names)[i - 1]);
            }
        }
    }
    lemma_backup_only_keeps(ua, installed, pkg);
    let backed = run(ua, installed, pkg);
    lemma_run_one(StepV::Report(Stage::Removing), backed, pkg);
    lemma_run_removal(names, backed, pkg);
    let removed = run(uc, backed, pkg);
    let t = run(uninstall_steps(names), installed, pkg);
    lemma_run_one(StepV::Apply(OpV::RemoveManifest), removed, pkg);
    assert(t == (removed.0, None::<ManifestV>));
    assert forall|p: RelPath| #[trigger] under_any(p, pkg_names) implies under_any(p, names) by {
        let k = choose|k: int| 0 <= k < pkg_names.len() && pkg_names[k] == p[0];
        assert(names.contains(pkg_names[k]));
    }
    assert forall|p: RelPath| !under(p, BACKUP_DIR@) implies (#[trigger] t.0.contains_key(p) <==> s.0.contains_key(p)) by {
        assert(without(backed.0, BACKUP_DIR@).contains_key(p) == without(installed.0, BACKUP_DIR@).contains_key(p));
    }
    assert forall|p: RelPath| !under(p, BACKUP_DIR@) && #[trigger] t.0.contains_key(p) implies t.0[p] == s.0[p] by {
        assert(without(backed.0, BACKUP_DIR@).contains_key(p) == without(installed.0, BACKUP_DIR@).contains_key(p));
        assert(without(backed.0, BACKUP_DIR@)[p] == without(installed.0, BACKUP_DIR@)[p]);
    }
    assert(without(t.0, BACKUP_DIR@) =~= without(s.0, BACKUP_DIR@));
}

/// The percent of the whole operation at which a stage begins.
pub open spec fn percent_of(g: Stage) -> u64 {
    match g {
        Stage::Preparing => 0,
        Stage::Downloading => 10,
        Stage::Extracting => 50,
        Stage::BackingUp => 60,
        Stage::Removing => 70,
        Stage::Copying => 80,
        Stage::Finalizing => 90,
        Stage::CleaningUp => 95,
        Stage::Done => 100,
    }
}

/// The position of a stage in the order stages run.
pub open spec fn rank(g: Stage) -> int {
    match g {
        Stage::Preparing => 0,
        Stage::Downloading => 1,
        Stage::Extracting => 2,
        Stage::BackingUp => 3,
        Stage::Removing => 4,
        Stage::Copying => 5,
        Stage::Finalizing => 6,
        Stage::CleaningUp => 7,
        Stage::Done => 8,
    }
}

/// Progress never goes back as the stages advance, and ends at 100.
pub proof fn lemma_progress_monotone(a: Stage, b: Stage)
    ensures
        rank(a) <= rank(b) ==> percent_of(a) <= percent_of(b),
        percent_of(Stage::Done) == 100,
        percent_of(a) <= 100,
{
}

impl Stage {
    /// The percent at which this stage begins.
    pub fn percent(self) -> (r: u64)
        ensures
            r == percent_of(self),
    {
        match self {
            Stage::Preparing => 0,
            Stage::Downloading => 10,
            Stage::Extracting => 50,
            Stage::BackingUp => 60,
            Stage::Removing => 70,
            Stage::Copying => 80,
            Stage::Finalizing => 90,
            Stage::CleaningUp => 95,
            Stage::Done => 100,
        }
    }
}

/// Progress while downloading: the band from the download stage to the
/// extraction stage, filled in proportion to the bytes received. Nothing is
/// reported while the total is unknown (zero); a count past the total counts
/// as the total.
pub fn download_percent(downloaded: u64, total: u64) -> (r: Option<u64>)
    ensures
        total == 0 ==> r is None,
        total > 0 ==> r == Some((10 + (if downloaded <= total { downloaded } else { total }) as int * 40
            / total as int) as u64),
        r is Some ==> 10 <= r->Some_0 <= 50,
{
    if total == 0 {
        return None;
    }
    let done = if downloaded <= total { downloaded } else { total };
    let p = crate::scaled_percent(done, total, 10, 40);
    proof {
        assert(done as int * 40 / total as int <= 40) by (nonlinear_arith)
            requires done <= total, total > 0;
        assert(done as int * 40 / total as int >= 0) by (nonlinear_arith)
            requires done >= 0, total > 0;
    }
    Some(p)
}

/// Moves every step of `more` to the end of `out`.
fn append_steps(out: &mut Vec<Step>, more: Vec<Step>)
    ensures
        steps_view(final(out)@) == steps_view(old(out)@) + steps_view(more@),
{
    let mut more = more;
    let ghost a = out@;
    let ghost b = more@;
    out.append(&mut more);
    assert(out@ == a + b);
    assert(steps_view(a + b) =~= steps_view(a) + steps_view(b));
}

/// A plan that announces one stage.
fn report(g: Stage) -> (r: Vec<Step>)
    ensures
        steps_view(r@) == seq![StepV::Report(g)],
{
    let mut v: Vec<Step> = Vec::new();
    v.push(Step::Report(g));
    assert(steps_view(v@) =~= seq![StepV::Report(g)]);
    v
}

/// Relies on `DateTime<Utc>::from(SystemTime)` and `DateTime::to_rfc3339`:
/// the current time as RFC 3339 text, never empty. It depends on the clock,
/// so nothing more is stated of it. The conversion handles a clock set before
/// 1970; it fails only for a clock beyond chrono's range of dates, some
/// 260,000 years away.
#[verifier::external_body]
fn now_rfc3339() -> (r: String)
    ensures
        r@.len() > 0,
{
    chrono::DateTime::<chrono::Utc>::from(std::time::SystemTime::now()).to_rfc3339()
}

/// The names of the package's default footprint.
pub open spec fn default_names() -> Seq<Seq<char>> {
    seq!["BepInEx"@, "dotnet"@, ".doorstop_version"@, "doorstop_config.ini"@, "dxgi.dll"@]
}

impl BackupSet {
    /// The footprint of the content package: the loader and runtime
    /// directories and the three loader files.
    pub fn default_set() -> (r: Self)
        ensures
            set_names(r) == default_names(),
            r.entries@.map_values(|e: FootprintEntry| e.is_dir) == seq![true, true, false, false, false],
    {
        let mut v: Vec<FootprintEntry> = Vec::new();
        v.push(FootprintEntry { name: String::from_str("BepInEx"), is_dir: true });
        v.push(FootprintEntry { name: String::from_str("dotnet"), is_dir: true });
        v.push(FootprintEntry { name: String::from_str(".doorstop_version"), is_dir: false });
        v.push(FootprintEntry { name: String::from_str("doorstop_config.ini"), is_dir: false });
        v.push(FootprintEntry { name: String::from_str("dxgi.dll"), is_dir: false });
        let r = BackupSet { entries: v };
        assert(set_names(r) =~= seq![
            "BepInEx"@,
            "dotnet"@,
            ".doorstop_version"@,
            "doorstop_config.ini"@,
            "dxgi.dll"@,
        ]);
        assert(r.entries@.map_values(|e: FootprintEntry| e.is_dir) =~= seq![true, true, false, false, false]);
        r
    }

    /// The names of the footprint, in order.
    pub fn names(&self) -> (r: Vec<String>)
        ensures
            r.deep_view() == set_names(*self),
    {
        let mut out: Vec<String> = Vec::new();
        let mut i: usize = 0;
        while i < self.entries.len()
            invariant
                i <= self.entries@.len(),
                out.deep_view() == set_names(*self).take(i as int),
            decreases self.entries@.len() - i,
        {
            let ghost before = out.deep_view();
            let n = self.entries[i].name.clone();
            out.push(n);
            assert(out.deep_view() =~= before.push(self.entries@[i as int].name@));
            assert(set_names(*self).take(i + 1) =~= set_names(*self).take(i as int).push(
                self.entries@[i as int].name@,
            ));
            i += 1;
        }
        assert(set_names(*self).take(self.entries@.len() as int) =~= set_names(*self));
        out
    }
}

/// Installation, update and removal of the content package in a target directory.
pub struct TranslationService {
    pub github_service: crate::release::GitHubService,
    pub footprint: BackupSet,
}

impl TranslationService {
    /// A service for a repository, with the package's default footprint.
    pub fn new(github_repo: String) -> (r: Self)
        ensures
            r.github_service.repo@ == github_repo@,
            set_names(r.footprint) == default_names(),
    {
        let footprint = BackupSet::default_set();
        TranslationService { github_service: crate::release::GitHubService::new(github_repo), footprint }
    }

    /// The backup steps: clear the backup directory, then copy each footprint
    /// entry into it.
    pub fn backup_old_translation(&self) -> (r: Vec<Step>)
        ensures
            steps_view(r@) == backup_phase(set_names(self.footprint)),
    {
        let ghost names = set_names(self.footprint);
        let mut out: Vec<Step> = Vec::new();
        out.push(Step::Apply(FsOp::ClearBackup));
        let mut i: usize = 0;
        while i < self.footprint.entries.len()
            invariant
                i <= self.footprint.entries@.len(),
                names == set_names(self.footprint),
                steps_view(out@) == seq![StepV::Apply(OpV::ClearBackup)] + names.take(i as int).map_values(
                    |n: Seq<char>| StepV::Apply(OpV::BackupEntry(n)),
                ),
            decreases self.footprint.entries@.len() - i,
        {
            let e = &self.footprint.entries[i];
            let ghost before = out@;
            out.push(Step::Apply(FsOp::BackupEntry { name: e.name.clone(), is_dir: e.is_dir }));
            assert(steps_view(out@) =~= steps_view(before).push(StepV::Apply(OpV::BackupEntry(names[i as int]))));
            assert(names.take(i + 1).map_values(|n: Seq<char>| StepV::Apply(OpV::BackupEntry(n))) =~= names.take(
                i as int,
            ).map_values(|n: Seq<char>| StepV::Apply(OpV::BackupEntry(n))).push(StepV::Apply(OpV::BackupEntry(names[i as int]))));
            i += 1;
        }
        assert(names.take(names.len() as int) =~= names);
        out
    }

    /// The removal steps: delete each footprint entry.
    pub fn remove_old_translation(&self) -> (r: Vec<Step>)
        ensures
            steps_view(r@) == removal_phase(set_names(self.footprint)),
    {
        let ghost names = set_names(self.footprint);
        let mut out: Vec<Step> = Vec::new();
        let mut i: usize = 0;
        while i < self.footprint.entries.len()
            invariant
                i <= self.footprint.entries@.len(),
                names == set_names(self.footprint),
                steps_view(out@) == removal_phase(names.take(i as int)),
            decreases self.footprint.entries@.len() - i,
        {
            let e = &self.footprint.entries[i];
            let ghost before = out@;
            out.push(Step::Apply(FsOp::RemoveEntry { name: e.name.clone(), is_dir: e.is_dir }));
            assert(steps_view(out@) =~= steps_view(before).push(StepV::Apply(OpV::RemoveEntry(names[i as int]))));
            assert(removal_phase(names.take(i + 1)) =~= removal_phase(names.take(i as int)).push(
                StepV::Apply(OpV::RemoveEntry(names[i as int])),
            ));
            i += 1;
        }
        assert(names.take(names.len() as int) =~= names);
        out
    }

    /// The copy steps: copy each entry of the package root into the target.
    pub fn copy_translation_files(&self, package_entries: &Vec<String>) -> (r: Vec<Step>)
        ensures
            steps_view(r@) == copy_phase(package_entries.deep_view()),
    {
        let ghost names = package_entries.deep_view();
        let mut out: Vec<Step> = Vec::new();
        let mut i: usize = 0;
        while i < package_entries.len()
            invariant
                i <= package_entries@.len(),
                names == package_entries.deep_view(),
                steps_view(out@) == copy_phase(names.take(i as int)),
            decreases package_entries@.len() - i,
        {
            let ghost before = out@;
            out.push(Step::Apply(FsOp::CopyIn { name: package_entries[i].clone() }));
            assert(steps_view(out@) =~= steps_view(before).push(StepV::Apply(OpV::CopyIn(names[i as int]))));
            assert(copy_phase(names.take(i + 1)) =~= copy_phase(names.take(i as int)).push(
                StepV::Apply(OpV::CopyIn(names[i as int])),
            ));
            i += 1;
        }
        assert(names.take(names.len() as int) =~= names);
        out
    }

    /// The manifest of a fresh install of `version`: installed now, recording
    /// the footprint's names.
    pub fn create_translation_info(&self, version: &str) -> (r: TranslationInfo)
        ensures
            r.version@ == version@,
            r.installed_date@.len() > 0,
            r.files.deep_view() == set_names(self.footprint),
    {
        TranslationInfo { version: version.to_string(), installed_date: now_rfc3339(), files: self.footprint.names() }
    }

    /// The steps of an install given whether a manifest exists, the entries of
    /// the package root, and the manifest to write.
    pub fn plan_install(&self, had_manifest: bool, package_entries: &Vec<String>, info: TranslationInfo) -> (r: Vec<
        Step,
    >)
        ensures
            steps_view(r@) == install_steps(
                set_names(self.footprint),
                had_manifest,
                package_entries.deep_view(),
                info_view(info),
            ),
    {
        let ghost m = info_view(info);
        let mut out = report(Stage::BackingUp);
        if had_manifest {
            append_steps(&mut out, self.backup_old_translation());
        } else {
            assert(steps_view(out@) =~= steps_view(out@) + Seq::<StepV>::empty());
        }
        append_steps(&mut out, report(Stage::Removing));
        append_steps(&mut out, self.remove_old_translation());
        append_steps(&mut out, report(Stage::Copying));
        append_steps(&mut out, self.copy_translation_files(package_entries));
        append_steps(&mut out, report(Stage::Finalizing));
        let ghost before = out@;
        out.push(Step::Apply(FsOp::WriteManifest { info }));
        assert(steps_view(out@) =~= steps_view(before).push(StepV::Apply(OpV::WriteManifest(m))));
        assert(steps_view(out@) =~= install_steps(
            set_names(self.footprint),
            had_manifest,
            package_entries.deep_view(),
            m,
        ));
        out
    }

    /// The steps that install `version` into the target described by
    /// `game_info`, whose extracted package root holds `package_entries`: a
    /// backup first when the target already carries a marker.
    pub fn install_translation(
        &self,
        game_info: &GameInfo,
        version: &TranslationVersion,
        package_entries: &Vec<String>,
    ) -> (r: Vec<Step>)
        ensures
            exists|d: Seq<char>|
                d.len() > 0 && steps_view(r@) == install_steps(
                    set_names(self.footprint),
                    game_info.has_translation,
                    package_entries.deep_view(),
                    (version.version@, d, set_names(self.footprint)),
                ),
    {
        let info = self.create_translation_info(version.version.as_str());
        let ghost d = info.installed_date@;
        let r = self.plan_install(game_info.has_translation, package_entries, info);
        assert(steps_view(r@) == install_steps(
            set_names(self.footprint),
            game_info.has_translation,
            package_entries.deep_view(),
            (version.version@, d, set_names(self.footprint)),
        ));
        r
    }

    /// An update is an install over what is there.
    pub fn update_translation(
        &self,
        game_info: &GameInfo,
        new_version: &TranslationVersion,
        package_entries: &Vec<String>,
    ) -> (r: Vec<Step>)
        ensures
            exists|d: Seq<char>|
                d.len() > 0 && steps_view(r@) == install_steps(
                    set_names(self.footprint),
                    game_info.has_translation,
                    package_entries.deep_view(),
                    (new_version.version@, d, set_names(self.footprint)),
                ),
    {
        self.install_translation(game_info, new_version, package_entries)
    }

    /// What to offer when `latest` is the newest release and `current_version`
    /// is installed (see `GitHubService::check_for_updates`).
    pub fn check_for_updates(&self, latest: &crate::release::GitHubRelease, current_version: &str) -> (r: Result<
        Option<TranslationVersion>,
        crate::release::ReleaseError,
    >)
        ensures
            latest.tag_name@ == current_version@ ==> r == Ok::<
                Option<TranslationVersion>,
                crate::release::ReleaseError,
            >(None),
            latest.tag_name@ != current_version@ && !crate::release::offers_pack(*latest) ==> r == Err::<
                Option<TranslationVersion>,
                crate::release::ReleaseError,
            >(crate::release::ReleaseError::NoMatchingAsset),
            latest.tag_name@ != current_version@ && crate::release::offers_pack(*latest) ==> r is Ok
                && r->Ok_0 is Some && crate::release::version_of_release(r->Ok_0->Some_0, *latest),
    {
        self.github_service.check_for_updates(latest, current_version)
    }

    /// The steps that remove the package: back up, remove the footprint,
    /// delete the manifest.
    pub fn uninstall_translation(&self) -> (r: Vec<Step>)
        ensures
            steps_view(r@) == uninstall_steps(set_names(self.footprint)),
    {
        let mut out = report(Stage::BackingUp);
        append_steps(&mut out, self.backup_old_translation());
        append_steps(&mut out, report(Stage::Removing));
        append_steps(&mut out, self.remove_old_translation());
        let ghost before = out@;
        out.push(Step::Apply(FsOp::RemoveManifest));
        assert(steps_view(out@) =~= steps_view(before).push(StepV::Apply(OpV::RemoveManifest)));
        assert(steps_view(out@) =~= uninstall_steps(set_names(self.footprint)));
        out
    }
}

/// A directory that holds, as a direct child, an entry named in `names`.
pub open spec fn holds_footprint(names: Seq<Seq<char>>, t: DirTree) -> bool {
    t.is_dir && exists|i: int| 0 <= i < t.children@.len() && names.contains(#[trigger] t.children@[i].name@)
}

/// The children of a placed node, each with its path.
pub open spec fn children_at(x: (RelPath, DirTree)) -> Seq<(RelPath, DirTree)> {
    x.1.children@.map_values(|c: DirTree| (x.0.push(c.name@), c))
}

/// The next level of a breadth-first walk: the children of each node, in order.
pub open spec fn next_level(front: Seq<(RelPath, DirTree)>) -> Seq<(RelPath, DirTree)>
    decreases front.len(),
{
    if front.len() == 0 {
        Seq::empty()
    } else {
        next_level(front.drop_last()) + children_at(front.last())
    }
}

/// Index of the first node at or after `from` that holds a footprint entry, or the length.
pub open spec fn first_holding(names: Seq<Seq<char>>, front: Seq<(RelPath, DirTree)>, from: int) -> int
    decreases front.len() - from,
{
    if from < 0 || from >= front.len() {
        front.len() as int
    } else if holds_footprint(names, front[from].1) {
        from
    } else {
        first_holding(names, front, from + 1)
    }
}

/// The path of the first node, in breadth-first order from `front` and at
/// most `depth` levels further down, that holds a footprint entry.
pub open spec fn bfs_root(names: Seq<Seq<char>>, front: Seq<(RelPath, DirTree)>, depth: nat) -> Option<RelPath>
    decreases depth,
{
    let i = first_holding(names, front, 0);
    if i < front.len() {
        Some(front[i].0)
    } else if depth == 0 {
        None
    } else {
        bfs_root(names, next_level(front), (depth - 1) as nat)
    }
}

/// The model of a walk's front.
pub open spec fn front_view(front: Seq<(Vec<String>, &DirTree)>) -> Seq<(RelPath, DirTree)> {
    front.map_values(|x: (Vec<String>, &DirTree)| (x.0.deep_view(), *x.1))
}

proof fn lemma_holding_skip(names: Seq<Seq<char>>, front: Seq<(RelPath, DirTree)>, i: int)
    requires
        0 <= i <= front.len(),
        forall|j: int| 0 <= j < i ==> !holds_footprint(names, #[trigger] front[j].1),
    ensures
        first_holding(names, front, 0) == first_holding(names, front, i),
    decreases i,
{
    if i > 0 {
        lemma_holding_skip(names, front, i - 1);
    }
}

proof fn lemma_bfs_empty(names: Seq<Seq<char>>, depth: nat)
    ensures
        bfs_root(names, Seq::empty(), depth) is None,
    decreases depth,
{
    if depth > 0 {
        assert(next_level(Seq::<(RelPath, DirTree)>::empty()) =~= Seq::empty());
        lemma_bfs_empty(names, (depth - 1) as nat);
    }
}

/// Whether `t` is a directory holding a footprint entry directly.
fn holds(names: &Vec<String>, t: &DirTree) -> (r: bool)
    ensures
        r == holds_footprint(names.deep_view(), *t),
{
    if !t.is_dir {
        return false;
    }
    let mut i: usize = 0;
    while i < t.children.len()
        invariant
            t.is_dir,
            i <= t.children@.len(),
            forall|j: int| 0 <= j < i ==> !names.deep_view().contains(#[trigger] t.children@[j].name@),
        decreases t.children@.len() - i,
    {
        if contains_name(names, &t.children[i].name) {
            assert(names.deep_view().contains(t.children@[i as int].name@));
            return true;
        }
        i += 1;
    }
    false
}

/// The next level of a walk.
fn next_front<'a>(front: &Vec<(Vec<String>, &'a DirTree)>) -> (r: Vec<(Vec<String>, &'a DirTree)>)
    ensures
        front_view(r@) == next_level(front_view(front@)),
{
    let ghost fv = front_view(front@);
    let mut out: Vec<(Vec<String>, &'a DirTree)> = Vec::new();
    let mut i: usize = 0;
    while i < front.len()
        invariant
            i <= front@.len(),
            fv == front_view(front@),
            front_view(out@) == next_level(fv.take(i as int)),
        decreases front@.len() - i,
    {
        let (path, node) = &front[i];
        let ghost start = front_view(out@);
        assert(fv.take(i + 1).drop_last() =~= fv.take(i as int));
        assert(fv.take(i + 1).last() == (path.deep_view(), **node));
        let mut k: usize = 0;
        while k < node.children.len()
            invariant
                k <= node.children@.len(),
                front_view(out@) == start + children_at((path.deep_view(), **node)).take(k as int),
            decreases node.children@.len() - k,
        {
            let mut p = path.clone();
            assert(p.deep_view() =~= path.deep_view()) by {
                assert(p@ == path@);
            }
            p.push(node.children[k].name.clone());
            let ghost np = p.deep_view();
            assert(np =~= path.deep_view().push(node.children@[k as int].name@));
            let ghost before = out@;
            out.push((p, &node.children[k]));
            assert(front_view(out@) =~= front_view(before).push((np, node.children@[k as int])));
            assert(children_at((path.deep_view(), **node)).take(k + 1) =~= children_at(
                (path.deep_view(), **node),
            ).take(k as int).push((np, node.children@[k as int])));
            k += 1;
        }
        assert(children_at((path.deep_view(), **node)).take(node.children@.len() as int) =~= children_at(
            (path.deep_view(), **node),
        ));
        i += 1;
    }
    assert(fv.take(front@.len() as int) =~= fv);
    out
}

impl TranslationService {
    /// Where the package's payload starts inside the extracted tree `root`:
    /// the path of the first directory, breadth-first from `root` itself and
    /// at most `max_depth` levels down, that holds a footprint entry directly.
    /// The walk ends as soon as a level is empty, so a `max_depth` past the
    /// tree's height costs nothing.
    pub fn find_package_root(&self, root: &DirTree, max_depth: usize) -> (r: Option<Vec<String>>)
        ensures
            opt_path(r) == bfs_root(set_names(self.footprint), seq![(Seq::<Seq<char>>::empty(), *root)], max_depth as nat),
    {
        let names = self.footprint.names();
        let ghost nv = names.deep_view();
        let mut front: Vec<(Vec<String>, &DirTree)> = Vec::new();
        let start: Vec<String> = Vec::new();
        assert(start.deep_view() =~= Seq::<Seq<char>>::empty());
        front.push((start, root));
        assert(front_view(front@) =~= seq![(Seq::<Seq<char>>::empty(), *root)]);
        let mut depth: usize = max_depth;
        loop
            invariant
                nv == names.deep_view(),
                nv == set_names(self.footprint),
                depth <= max_depth,
                bfs_root(nv, front_view(front@), depth as nat) == bfs_root(
                    nv,
                    seq![(Seq::<Seq<char>>::empty(), *root)],
                    max_depth as nat,
                ),
            decreases depth,
        {
            let ghost fv = front_view(front@);
            let mut i: usize = 0;
            while i < front.len()
                invariant
                    i <= front@.len(),
                    fv == front_view(front@),
                    nv == names.deep_view(),
                    nv == set_names(self.footprint),
                    bfs_root(nv, fv, depth as nat) == bfs_root(
                        nv,
                        seq![(Seq::<Seq<char>>::empty(), *root)],
                        max_depth as nat,
                    ),
                    forall|j: int| 0 <= j < i ==> !holds_footprint(nv, #[trigger] fv[j].1),
                decreases front@.len() - i,
            {
                if holds(&names, front[i].1) {
                    proof { lemma_holding_skip(nv, fv, i as int); }
                    let p = front[i].0.clone();
                    assert(p.deep_view() =~= fv[i as int].0) by {
                        assert(p@ == front@[i as int].0@);
                    }
                    return Some(p);
                }
                i += 1;
            }
            proof { lemma_holding_skip(nv, fv, i as int); }
            if depth == 0 {
                return None;
            }
            if front.len() == 0 {
                proof {
                    assert(fv =~= Seq::<(RelPath, DirTree)>::empty());
                    lemma_bfs_empty(nv, depth as nat);
                }
                return None;
            }
            assert(first_holding(nv, fv, 0) == fv.len());
            front = next_front(&front);
            depth = depth - 1;
        }
    }
}

} // verus!
