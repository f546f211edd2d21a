//! Finding the installation directory: the required-file signature, the
//! exclusion-aware scan of a directory snapshot, and the ordered search.
use vstd::prelude::*;
use vstd::string::*;
use crate::text::{has_prefix, lower_of, lowercase, starts_with};

verus! {

/// Name of the marker file that an installed package leaves in the directory.
pub const MARKER_FILE: &'static str = "translation_info.json";

/// What a valid directory holds: files and subdirectories, by name.
pub struct DirectorySignature {
    pub required_files: Vec<String>,
    pub required_dirs: Vec<String>,
}

/// The entries of `req` that `present` lacks, in order.
pub open spec fn absent(req: Seq<Seq<char>>, present: Seq<Seq<char>>) -> Seq<Seq<char>>
    decreases req.len(),
{
    if req.len() == 0 {
        Seq::empty()
    } else if present.contains(req.last()) {
        absent(req.drop_last(), present)
    } else {
        absent(req.drop_last(), present).push(req.last())
    }
}

/// Every missing item: required files first, then required directories with a
/// trailing `/`, each group in declaration order.
pub open spec fn missing_of(sig: DirectorySignature, present: Seq<Seq<char>>) -> Seq<Seq<char>> {
    absent(sig.required_files.deep_view(), present) + absent(sig.required_dirs.deep_view(), present).map_values(
        |d: Seq<char>| d + "/"@,
    )
}

/// Every required file and every required directory is present.
pub open spec fn satisfies(sig: DirectorySignature, present: Seq<Seq<char>>) -> bool {
    &&& forall|i: int| 0 <= i < sig.required_files@.len() ==> present.contains(#[trigger] sig.required_files@[i]@)
    &&& forall|i: int| 0 <= i < sig.required_dirs@.len() ==> present.contains(#[trigger] sig.required_dirs@[i]@)
}

proof fn lemma_absent_empty(req: Seq<Seq<char>>, present: Seq<Seq<char>>)
    ensures
        absent(req, present).len() == 0 <==> forall|i: int| 0 <= i < req.len() ==> present.contains(#[trigger] req[i]),
    decreases req.len(),
{
    if req.len() > 0 {
        let d = req.drop_last();
        lemma_absent_empty(d, present);
        if present.contains(req.last()) {
            assert((forall|i: int| 0 <= i < req.len() ==> present.contains(#[trigger] req[i])) <==> (forall|
                i: int,
            |
                0 <= i < d.len() ==> present.contains(#[trigger] d[i]))) by {
                if forall|i: int| 0 <= i < d.len() ==> present.contains(#[trigger] d[i]) {
                    assert forall|i: int| 0 <= i < req.len() implies present.contains(#[trigger] req[i]) by {
                        if i < d.len() {
                            assert(d[i] == req[i]);
                        }
                    }
                }
                if forall|i: int| 0 <= i < req.len() ==> present.contains(#[trigger] req[i]) {
                    assert forall|i: int| 0 <= i < d.len() implies present.contains(#[trigger] d[i]) by {
                        assert(d[i] == req[i]);
                    }
                }
            }
        } else {
            assert(!present.contains(req[req.len() - 1]));
        }
    }
}

proof fn lemma_absent_same_names(req: Seq<Seq<char>>, p1: Seq<Seq<char>>, p2: Seq<Seq<char>>)
    requires
        p1.to_set() == p2.to_set(),
    ensures
        absent(req, p1) == absent(req, p2),
    decreases req.len(),
{
    if req.len() > 0 {
        lemma_absent_same_names(req.drop_last(), p1, p2);
        assert(p1.contains(req.last()) <==> p1.to_set().contains(req.last()));
        assert(p2.contains(req.last()) <==> p2.to_set().contains(req.last()));
    }
}

/// A directory is valid exactly when nothing is missing from it.
pub proof fn lemma_valid_iff_nothing_missing(sig: DirectorySignature, present: Seq<Seq<char>>)
    ensures
        satisfies(sig, present) <==> missing_of(sig, present).len() == 0,
{
    let f = sig.required_files.deep_view();
    let d = sig.required_dirs.deep_view();
    lemma_absent_empty(f, present);
    lemma_absent_empty(d, present);
    assert forall|i: int| 0 <= i < f.len() implies #[trigger] f[i] == sig.required_files@[i]@ by {}
    assert forall|i: int| 0 <= i < d.len() implies #[trigger] d[i] == sig.required_dirs@[i]@ by {}
    if forall|i: int| 0 <= i < f.len() ==> present.contains(#[trigger] f[i]) {
        assert forall|i: int| 0 <= i < sig.required_files@.len() implies present.contains(
            #[trigger] sig.required_files@[i]@,
        ) by {
            assert(f[i] == sig.required_files@[i]@);
        }
    }
    if forall|i: int| 0 <= i < sig.required_files@.len() ==> present.contains(#[trigger] sig.required_files@[i]@) {
        assert forall|i: int| 0 <= i < f.len() implies present.contains(#[trigger] f[i]) by {
            assert(f[i] == sig.required_files@[i]@);
        }
    }
    if forall|i: int| 0 <= i < d.len() ==> present.contains(#[trigger] d[i]) {
        assert forall|i: int| 0 <= i < sig.required_dirs@.len() implies present.contains(
            #[trigger] sig.required_dirs@[i]@,
        ) by {
            assert(d[i] == sig.required_dirs@[i]@);
        }
    }
    if forall|i: int| 0 <= i < sig.required_dirs@.len() ==> present.contains(#[trigger] sig.required_dirs@[i]@) {
        assert forall|i: int| 0 <= i < d.len() implies present.contains(#[trigger] d[i]) by {
            assert(d[i] == sig.required_dirs@[i]@);
        }
    }
}

/// Validation depends only on which names a directory holds, not on the order
/// in which they were listed: two listings of an unchanged directory give the
/// same verdict and the same missing items.
pub proof fn lemma_validate_idempotent(sig: DirectorySignature, p1: Seq<Seq<char>>, p2: Seq<Seq<char>>)
    requires
        p1.to_set() == p2.to_set(),
    ensures
        missing_of(sig, p1) == missing_of(sig, p2),
        satisfies(sig, p1) == satisfies(sig, p2),
{
    lemma_absent_same_names(sig.required_files.deep_view(), p1, p2);
    lemma_absent_same_names(sig.required_dirs.deep_view(), p1, p2);
    lemma_valid_iff_nothing_missing(sig, p1);
    lemma_valid_iff_nothing_missing(sig, p2);
}

/// Whether `name` is one of `names`.
pub fn contains_name(names: &Vec<String>, name: &String) -> (r: bool)
    ensures
        r == names.deep_view().contains(name@),
{
    let mut i: usize = 0;
    while i < names.len()
        invariant
            i <= names@.len(),
            forall|j: int| 0 <= j < i ==> names@[j]@ != name@,
        decreases names@.len() - i,
    {
        if names[i] == *name {
            assert(names.deep_view()[i as int] == name@);
            return true;
        }
        i += 1;
    }
    assert forall|j: int| 0 <= j < names.deep_view().len() implies names.deep_view()[j] != name@ by {
        assert(names.deep_view()[j] == names@[j]@);
    }
    false
}

/// The entries of `req` missing from `present`, each followed by `suffix`.
fn absent_items(req: &Vec<String>, present: &Vec<String>, suffix: &str) -> (r: Vec<String>)
    ensures
        r.deep_view() == absent(req.deep_view(), present.deep_view()).map_values(|d: Seq<char>| d + suffix@),
{
    let ghost rv = req.deep_view();
    let ghost pv = present.deep_view();
    let mut out: Vec<String> = Vec::new();
    let mut i: usize = 0;
    while i < req.len()
        invariant
            i <= req@.len(),
            rv == req.deep_view(),
            pv == present.deep_view(),
            out.deep_view() == absent(rv.subrange(0, i as int), pv).map_values(|d: Seq<char>| d + suffix@),
        decreases req@.len() - i,
    {
        let ghost pre = rv.subrange(0, i as int);
        assert(rv.subrange(0, i + 1).drop_last() =~= pre);
        assert(rv.subrange(0, i + 1).last() == req@[i as int]@);
        if !contains_name(present, &req[i]) {
            let item = req[i].clone().concat(suffix);
            let ghost before = out.deep_view();
            out.push(item);
            assert(out.deep_view() =~= before.push(req@[i as int]@ + suffix@));
            assert(absent(rv.subrange(0, i + 1), pv) == absent(pre, pv).push(req@[i as int]@));
            assert(absent(rv.subrange(0, i + 1), pv).map_values(|d: Seq<char>| d + suffix@)
                =~= absent(pre, pv).map_values(|d: Seq<char>| d + suffix@).push(req@[i as int]@ + suffix@));
        }
        i += 1;
    }
    assert(rv.subrange(0, req@.len() as int) =~= rv);
    out
}

impl DirectorySignature {
    /// The signature of a game installation: its executable, two runtime
    /// libraries and its data directory.
    pub fn game() -> (r: Self)
        ensures
            r.required_files.deep_view() == seq![
                "PrincessConnectReDive.exe"@,
                "UnityPlayer.dll"@,
                "GameAssembly.dll"@,
            ],
            r.required_dirs.deep_view() == seq!["PrincessConnectReDive_Data"@],
    {
        let mut files: Vec<String> = Vec::new();
        files.push(String::from_str("PrincessConnectReDive.exe"));
        files.push(String::from_str("UnityPlayer.dll"));
        files.push(String::from_str("GameAssembly.dll"));
        let mut dirs: Vec<String> = Vec::new();
        dirs.push(String::from_str("PrincessConnectReDive_Data"));
        let r = DirectorySignature { required_files: files, required_dirs: dirs };
        assert(r.required_files.deep_view() =~= seq![
            "PrincessConnectReDive.exe"@,
            "UnityPlayer.dll"@,
            "GameAssembly.dll"@,
        ]);
        assert(r.required_dirs.deep_view() =~= seq!["PrincessConnectReDive_Data"@]);
        r
    }

    /// Whether a directory holding the names `present` is valid.
    pub fn is_satisfied_by(&self, present: &Vec<String>) -> (r: bool)
        ensures
            r == satisfies(*self, present.deep_view()),
    {
        let ghost pv = present.deep_view();
        let mut i: usize = 0;
        while i < self.required_files.len()
            invariant
                i <= self.required_files@.len(),
                pv == present.deep_view(),
                forall|j: int| 0 <= j < i ==> pv.contains(#[trigger] self.required_files@[j]@),
            decreases self.required_files@.len() - i,
        {
            if !contains_name(present, &self.required_files[i]) {
                return false;
            }
            i += 1;
        }
        let mut k: usize = 0;
        while k < self.required_dirs.len()
            invariant
                k <= self.required_dirs@.len(),
                pv == present.deep_view(),
                forall|j: int| 0 <= j < self.required_files@.len() ==> pv.contains(#[trigger] self.required_files@[j]@),
                forall|j: int| 0 <= j < k ==> pv.contains(#[trigger] self.required_dirs@[j]@),
            decreases self.required_dirs@.len() - k,
        {
            if !contains_name(present, &self.required_dirs[k]) {
                return false;
            }
            k += 1;
        }
        true
    }

    /// Every missing item, files first, then directories with a trailing `/`.
    pub fn missing_items(&self, present: &Vec<String>) -> (r: Vec<String>)
        ensures
            r.deep_view() == missing_of(*self, present.deep_view()),
    {
        let mut files = absent_items(&self.required_files, present, "");
        let dirs = absent_items(&self.required_dirs, present, "/");
        let ghost fv = files.deep_view();
        let ghost dv = dirs.deep_view();
        let ghost f0 = absent(self.required_files.deep_view(), present.deep_view());
        assert(fv =~= f0) by {
            reveal_strlit("");
            assert forall|j: int| 0 <= j < f0.len() implies f0[j] + ""@ == f0[j] by {
                assert(f0[j] + ""@ =~= f0[j]);
            }
        }
        let mut i: usize = 0;
        while i < dirs.len()
            invariant
                i <= dirs@.len(),
                dv == dirs.deep_view(),
                files.deep_view() == fv + dv.subrange(0, i as int),
            decreases dirs@.len() - i,
        {
            files.push(dirs[i].clone());
            assert(fv + dv.subrange(0, i + 1) =~= (fv + dv.subrange(0, i as int)).push(dv[i as int]));
            i += 1;
        }
        assert(dv.subrange(0, dirs@.len() as int) =~= dv);
        files
    }
}

/// The option view of an optional string.
pub open spec fn opt_view(o: Option<String>) -> Option<Seq<char>> {
    match o {
        Some(s) => Some(s@),
        None => None,
    }
}

/// What the marker text holds: `None` when it is not JSON, otherwise its
/// `version` member when that is a string.
pub uninterp spec fn marker_version_of(text: Seq<char>) -> Option<Option<Seq<char>>>;

/// Relies on `serde_json::from_str` into a `Value`, then indexing it by
/// `"version"` (which gives `Null` for a missing member or a non-object) and
/// `Value::as_str`: a function of the text alone.
#[verifier::external_body]
fn marker_version(text: &str) -> (r: Option<Option<String>>)
    ensures
        match r {
            None => marker_version_of(text@) is None,
            Some(v) => marker_version_of(text@) == Some(opt_view(v)),
        },
{
    match serde_json::from_str::<serde_json::Value>(text) {
        Ok(v) => Some(v["version"].as_str().map(String::from)),
        Err(_) => None,
    }
}

/// What is known of a candidate installation directory.
pub struct GameInfo {
    pub path: String,
    pub version: Option<String>,
    pub is_valid: bool,
    pub has_translation: bool,
    pub translation_version: Option<String>,
}

impl GameInfo {
    /// A not yet validated directory.
    pub fn new(path: String) -> (r: Self)
        ensures
            r.path@ == path@,
            r.version is None,
            !r.is_valid,
            !r.has_translation,
            r.translation_version is None,
    {
        GameInfo { path, version: None, is_valid: false, has_translation: false, translation_version: None }
    }

    /// Records and returns whether the directory, holding `present`, is valid.
    pub fn validate(&mut self, sig: &DirectorySignature, present: &Vec<String>) -> (r: bool)
        ensures
            r == satisfies(*sig, present.deep_view()),
            final(self).is_valid == r,
            final(self).path == old(self).path,
            final(self).version == old(self).version,
            final(self).has_translation == old(self).has_translation,
            final(self).translation_version == old(self).translation_version,
    {
        self.is_valid = sig.is_satisfied_by(present);
        self.is_valid
    }

    /// Every item of `sig` missing from the directory.
    pub fn get_missing_files(&self, sig: &DirectorySignature, present: &Vec<String>) -> (r: Vec<String>)
        ensures
            r.deep_view() == missing_of(*sig, present.deep_view()),
    {
        sig.missing_items(present)
    }

    /// Records whether a marker file is present and, when its text could be
    /// read and is JSON, the version it names. A marker that is not JSON
    /// leaves the recorded version as it was.
    pub fn check_translation(&mut self, marker_present: bool, marker_text: Option<&str>) -> (r: bool)
        ensures
            r == marker_present,
            final(self).has_translation == marker_present,
            final(self).path == old(self).path,
            final(self).version == old(self).version,
            final(self).is_valid == old(self).is_valid,
            opt_view(final(self).translation_version) == (match marker_text {
                Some(t) if marker_present && marker_version_of(t@) is Some => marker_version_of(t@)->Some_0,
                _ => opt_view(old(self).translation_version),
            }),
    {
        self.has_translation = marker_present;
        if marker_present {
            if let Some(t) = marker_text {
                if let Some(v) = marker_version(t) {
                    self.translation_version = v;
                }
            }
        }
        self.has_translation
    }
}

/// A directory tree as it was read: names, kinds, and the children of each
/// directory that could be opened (an unreadable directory has none).
pub struct DirTree {
    pub name: String,
    pub is_dir: bool,
    pub children: Vec<DirTree>,
}

/// Which directories a scan skips and which name it looks for. Names are
/// compared in lower case, on both sides.
pub struct ScanPolicy {
    pub skip_names: Vec<String>,
    pub skip_prefixes: Vec<String>,
    pub target: String,
}

/// A directory found by name during a scan, with the names it holds.
pub struct Candidate {
    pub path: Vec<String>,
    pub entries: Vec<String>,
}

impl View for Candidate {
    type V = (Seq<Seq<char>>, Seq<Seq<char>>);

    open spec fn view(&self) -> Self::V {
        (self.path.deep_view(), self.entries.deep_view())
    }
}

/// The views of a sequence of candidates.
pub open spec fn cand_views(s: Seq<Candidate>) -> Seq<(Seq<Seq<char>>, Seq<Seq<char>>)> {
    s.map_values(|c: Candidate| c@)
}

/// A lower-case directory name that the scan does not enter: it equals a
/// skipped name, or starts with a skipped prefix, both taken in lower case.
pub open spec fn skipped(p: ScanPolicy, lname: Seq<char>) -> bool {
    (exists|i: int| 0 <= i < p.skip_names@.len() && lower_of(#[trigger] p.skip_names@[i]@) == lname) || exists|
        i: int,
    | 0 <= i < p.skip_prefixes@.len() && has_prefix(lname, lower_of(#[trigger] p.skip_prefixes@[i]@))
}

/// The name looked for, in lower case.
pub open spec fn target_of(p: ScanPolicy) -> Seq<char> {
    lower_of(p.target@)
}

/// What a scan does with one entry.
#[derive(Clone, Copy, Debug, PartialEq, Eq, Structural)]
pub enum ScanDecision {
    /// Not a directory, or a skipped one: neither reported nor entered.
    Pass,
    /// A directory with the target name: reported, and not entered.
    Candidate,
    /// Any other directory: entered.
    Enter,
}

/// What a scan does with an entry named `name`.
pub open spec fn decision_of(p: ScanPolicy, name: Seq<char>, is_dir: bool) -> ScanDecision {
    if !is_dir || skipped(p, lower_of(name)) {
        ScanDecision::Pass
    } else if lower_of(name) == target_of(p) {
        ScanDecision::Candidate
    } else {
        ScanDecision::Enter
    }
}

/// The names of a list of entries.
pub open spec fn names_of(kids: Seq<DirTree>) -> Seq<Seq<char>> {
    kids.map_values(|k: DirTree| k.name@)
}

/// The candidates found among `kids`, which lie at `base`, descending at most
/// `depth` levels: entries that are not directories, and directories whose
/// lower-case name is skipped, are passed over; a directory whose lower-case
/// name is the target is a candidate and is not entered; any other directory
/// is searched in turn.
pub open spec fn scan_list(p: ScanPolicy, kids: Seq<DirTree>, depth: nat, base: Seq<Seq<char>>) -> Seq<
    (Seq<Seq<char>>, Seq<Seq<char>>),
>
    decreases depth, kids.len(),
{
    if depth == 0 || kids.len() == 0 {
        Seq::empty()
    } else {
        let front = scan_list(p, kids.drop_last(), depth, base);
        let k = kids.last();
        let path = base.push(k.name@);
        let lname = lower_of(k.name@);
        if !k.is_dir || skipped(p, lname) {
            front
        } else if lname == target_of(p) {
            front.push((path, names_of(k.children@)))
        } else {
            front + scan_list(p, k.children@, (depth - 1) as nat, path)
        }
    }
}

/// The path of a candidate avoids every skipped directory, ends at a
/// directory with the target name, and passes through no other such directory.
pub open spec fn well_placed(p: ScanPolicy, path: Seq<Seq<char>>, base_len: int) -> bool {
    &&& path.len() > base_len
    &&& lower_of(path.last()) == target_of(p)
    &&& forall|j: int| base_len <= j < path.len() ==> !skipped(p, lower_of(#[trigger] path[j]))
    &&& forall|j: int| base_len <= j < path.len() - 1 ==> lower_of(#[trigger] path[j]) != target_of(p)
}

/// A scan never enters a directory whose name is skipped, never descends past
/// a directory with the target name, and finds only directories with that name
/// at most `depth` levels below its start.
pub proof fn lemma_scan_respects_policy(p: ScanPolicy, kids: Seq<DirTree>, depth: nat, base: Seq<Seq<char>>)
    ensures
        forall|i: int| 0 <= i < scan_list(p, kids, depth, base).len() ==> {
            let c = #[trigger] scan_list(p, kids, depth, base)[i];
            &&& well_placed(p, c.0, base.len() as int)
            &&& c.0.len() <= base.len() + depth
            &&& c.0.subrange(0, base.len() as int) == base
        },
    decreases depth, kids.len(),
{
    if depth == 0 || kids.len() == 0 {
    } else {
        let front = scan_list(p, kids.drop_last(), depth, base);
        lemma_scan_respects_policy(p, kids.drop_last(), depth, base);
        let k = kids.last();
        let path = base.push(k.name@);
        let lname = lower_of(k.name@);
        let all = scan_list(p, kids, depth, base);
        if !k.is_dir || skipped(p, lname) {
        } else if lname == target_of(p) {
            assert(path.subrange(0, base.len() as int) =~= base);
            assert forall|i: int| 0 <= i < all.len() implies {
                let c = #[trigger] all[i];
                &&& well_placed(p, c.0, base.len() as int)
                &&& c.0.len() <= base.len() + depth
                &&& c.0.subrange(0, base.len() as int) == base
            } by {
                if i < front.len() {
                    assert(all[i] == front[i]);
                } else {
                    assert(all[i] == (path, names_of(k.children@)));
                    assert(path[base.len() as int] == k.name@);
                }
            }
        } else {
            let inner = scan_list(p, k.children@, (depth - 1) as nat, path);
            lemma_scan_respects_policy(p, k.children@, (depth - 1) as nat, path);
            assert forall|i: int| 0 <= i < all.len() implies {
                let c = #[trigger] all[i];
                &&& well_placed(p, c.0, base.len() as int)
                &&& c.0.len() <= base.len() + depth
                &&& c.0.subrange(0, base.len() as int) == base
            } by {
                if i < front.len() {
                    assert(all[i] == front[i]);
                } else {
                    let c = inner[i - front.len()];
                    assert(all[i] == c);
                    assert(c.0.subrange(0, path.len() as int) == path);
                    assert(c.0.subrange(0, base.len() as int) =~= c.0.subrange(0, path.len() as int).subrange(
                        0,
                        base.len() as int,
                    ));
                    assert(path.subrange(0, base.len() as int) =~= base);
                    assert(c.0[base.len() as int] == c.0.subrange(0, path.len() as int)[base.len() as int]);
                    assert forall|j: int| base.len() <= j < c.0.len() implies !skipped(
                        p,
                        lower_of(#[trigger] c.0[j]),
                    ) by {
                        if j == base.len() {
                            assert(c.0[j] == k.name@);
                        }
                    }
                    assert forall|j: int| base.len() <= j < c.0.len() - 1 implies lower_of(#[trigger] c.0[j])
                        != target_of(p) by {
                        if j == base.len() {
                            assert(c.0[j] == k.name@);
                        }
                    }
                }
            }
        }
    }
}

/// Whether a lower-case name is skipped by the policy.
fn is_skipped(p: &ScanPolicy, lname: &String) -> (r: bool)
    ensures
        r == skipped(*p, lname@),
{
    let mut k: usize = 0;
    while k < p.skip_names.len()
        invariant
            k <= p.skip_names@.len(),
            forall|j: int| 0 <= j < k ==> lower_of(#[trigger] p.skip_names@[j]@) != lname@,
        decreases p.skip_names@.len() - k,
    {
        let ls = lowercase(p.skip_names[k].as_str());
        if ls == *lname {
            return true;
        }
        k += 1;
    }
    let mut i: usize = 0;
    while i < p.skip_prefixes.len()
        invariant
            i <= p.skip_prefixes@.len(),
            forall|j: int| 0 <= j < p.skip_names@.len() ==> lower_of(#[trigger] p.skip_names@[j]@) != lname@,
            forall|j: int| 0 <= j < i ==> !has_prefix(lname@, lower_of(#[trigger] p.skip_prefixes@[j]@)),
        decreases p.skip_prefixes@.len() - i,
    {
        let lp = lowercase(p.skip_prefixes[i].as_str());
        if starts_with(lname.as_str(), lp.as_str()) {
            return true;
        }
        i += 1;
    }
    false
}

impl ScanPolicy {
    /// What a scan does with an entry: pass it over, report it, or enter it.
    pub fn decide(&self, name: &String, is_dir: bool) -> (r: ScanDecision)
        ensures
            r == decision_of(*self, name@, is_dir),
    {
        if !is_dir {
            return ScanDecision::Pass;
        }
        let lname = lowercase(name.as_str());
        if is_skipped(self, &lname) {
            return ScanDecision::Pass;
        }
        let ltarget = lowercase(self.target.as_str());
        if lname == ltarget {
            ScanDecision::Candidate
        } else {
            ScanDecision::Enter
        }
    }
}

/// The names of a list of entries.
fn entry_names(kids: &Vec<DirTree>) -> (r: Vec<String>)
    ensures
        r.deep_view() == names_of(kids@),
{
    let mut out: Vec<String> = Vec::new();
    let mut i: usize = 0;
    while i < kids.len()
        invariant
            i <= kids@.len(),
            out.deep_view() == names_of(kids@.subrange(0, i as int)),
        decreases kids@.len() - i,
    {
        let ghost before = out.deep_view();
        let n = kids[i].name.clone();
        out.push(n);
        assert(out.deep_view() =~= before.push(kids@[i as int].name@));
        assert(names_of(kids@.subrange(0, i + 1)) =~= names_of(kids@.subrange(0, i as int)).push(
            kids@[i as int].name@,
        ));
        i += 1;
    }
    assert(kids@.subrange(0, kids@.len() as int) =~= kids@);
    out
}

/// Appends to `out` the candidates found among `kids`, which lie at `base`,
/// searching at most `max_depth` levels down (see `scan_list`).
pub fn collect_priconner_folders(
    p: &ScanPolicy,
    kids: &Vec<DirTree>,
    base: &Vec<String>,
    max_depth: usize,
    out: &mut Vec<Candidate>,
)
    ensures
        cand_views(final(out)@) == cand_views(old(out)@) + scan_list(*p, kids@, max_depth as nat, base.deep_view()),
    decreases max_depth,
{
    if max_depth == 0 {
        assert(cand_views(out@) =~= cand_views(out@) + Seq::<(Seq<Seq<char>>, Seq<Seq<char>>)>::empty());
        return;
    }
    let ghost start = cand_views(out@);
    let ghost bv = base.deep_view();
    let mut i: usize = 0;
    assert(cand_views(out@) =~= start + scan_list(*p, kids@.subrange(0, 0), max_depth as nat, bv));
    while i < kids.len()
        invariant
            i <= kids@.len(),
            max_depth > 0,
            bv == base.deep_view(),
            cand_views(out@) == start + scan_list(*p, kids@.subrange(0, i as int), max_depth as nat, bv),
        decreases kids@.len() - i,
    {
        let ghost pre = kids@.subrange(0, i as int);
        assert(kids@.subrange(0, i + 1).drop_last() =~= pre);
        let k = &kids[i];
        let ghost front = scan_list(*p, pre, max_depth as nat, bv);
        let mut path = base.clone();
        assert(path.deep_view() =~= bv) by {
            assert(path@ == base@);
        }
        path.push(k.name.clone());
        assert(path.deep_view() =~= bv.push(k.name@));
        let d = p.decide(&k.name, k.is_dir);
        if d == ScanDecision::Candidate {
            let entries = entry_names(&k.children);
            let c = Candidate { path, entries };
            let ghost before = out@;
            out.push(c);
            assert(cand_views(out@) =~= cand_views(before).push(c@));
        } else if d == ScanDecision::Enter {
            collect_priconner_folders(p, &k.children, &path, max_depth - 1, out);
            assert(cand_views(out@) =~= start + (front + scan_list(
                *p,
                k.children@,
                (max_depth - 1) as nat,
                bv.push(k.name@),
            )));
        }
        i += 1;
    }
    assert(kids@.subrange(0, kids@.len() as int) =~= kids@);
}

/// Every candidate under the roots, each searched `max_depth` levels deep;
/// a candidate's path starts with its root's name.
pub fn find_all_priconner_folders(p: &ScanPolicy, roots: &Vec<DirTree>, max_depth: usize) -> (r: Vec<
    Candidate,
>)
    ensures
        cand_views(r@) == roots_scan(*p, roots@, max_depth as nat),
{
    let mut out: Vec<Candidate> = Vec::new();
    let mut i: usize = 0;
    assert(cand_views(out@) =~= roots_scan(*p, roots@.subrange(0, 0), max_depth as nat));
    while i < roots.len()
        invariant
            i <= roots@.len(),
            cand_views(out@) == roots_scan(*p, roots@.subrange(0, i as int), max_depth as nat),
        decreases roots@.len() - i,
    {
        assert(roots@.subrange(0, i + 1).drop_last() =~= roots@.subrange(0, i as int));
        let mut base: Vec<String> = Vec::new();
        base.push(roots[i].name.clone());
        assert(base.deep_view() =~= seq![roots@[i as int].name@]);
        collect_priconner_folders(p, &roots[i].children, &base, max_depth, &mut out);
        i += 1;
    }
    assert(roots@.subrange(0, roots@.len() as int) =~= roots@);
    out
}

/// The candidates under each root, in the order of the roots.
pub open spec fn roots_scan(p: ScanPolicy, roots: Seq<DirTree>, depth: nat) -> Seq<(Seq<Seq<char>>, Seq<Seq<char>>)>
    decreases roots.len(),
{
    if roots.len() == 0 {
        Seq::empty()
    } else {
        roots_scan(p, roots.drop_last(), depth) + scan_list(
            p,
            roots.last().children@,
            depth,
            seq![roots.last().name@],
        )
    }
}

/// A location probed for an installation: whether it exists and the names it holds.
pub struct Probe {
    pub path: Vec<String>,
    pub exists: bool,
    pub entries: Vec<String>,
}

/// The probe names an existing directory that passes the signature.
pub open spec fn probe_ok(sig: DirectorySignature, p: Probe) -> bool {
    p.exists && satisfies(sig, p.entries.deep_view())
}

/// Index of the first passing probe at or after `from`, or the length if none.
pub open spec fn first_probe_from(sig: DirectorySignature, s: Seq<Probe>, from: int) -> int
    decreases s.len() - from,
{
    if from < 0 || from >= s.len() {
        s.len() as int
    } else if probe_ok(sig, s[from]) {
        from
    } else {
        first_probe_from(sig, s, from + 1)
    }
}

/// Index of the first candidate at or after `from` whose entries pass, or the length if none.
pub open spec fn first_cand_from(
    sig: DirectorySignature,
    s: Seq<(Seq<Seq<char>>, Seq<Seq<char>>)>,
    from: int,
) -> int
    decreases s.len() - from,
{
    if from < 0 || from >= s.len() {
        s.len() as int
    } else if satisfies(sig, s[from].1) {
        from
    } else {
        first_cand_from(sig, s, from + 1)
    }
}

/// The path of the first valid candidate, if any.
pub open spec fn first_valid_path(sig: DirectorySignature, s: Seq<(Seq<Seq<char>>, Seq<Seq<char>>)>) -> Option<
    Seq<Seq<char>>,
> {
    let i = first_cand_from(sig, s, 0);
    if i < s.len() {
        Some(s[i].0)
    } else {
        None
    }
}

/// The path of the first passing probe, if any.
pub open spec fn first_probe_path(sig: DirectorySignature, s: Seq<Probe>) -> Option<Seq<Seq<char>>> {
    let i = first_probe_from(sig, s, 0);
    if i < s.len() {
        Some(s[i].path.deep_view())
    } else {
        None
    }
}

/// The option view of an optional path.
pub open spec fn opt_path(o: Option<Vec<String>>) -> Option<Seq<Seq<char>>> {
    match o {
        Some(p) => Some(p.deep_view()),
        None => None,
    }
}

proof fn lemma_probe_skip(sig: DirectorySignature, s: Seq<Probe>, i: int)
    requires
        0 <= i <= s.len(),
        forall|j: int| 0 <= j < i ==> !probe_ok(sig, #[trigger] s[j]),
    ensures
        first_probe_from(sig, s, 0) == first_probe_from(sig, s, i),
    decreases i,
{
    if i > 0 {
        lemma_probe_skip(sig, s, i - 1);
    }
}

proof fn lemma_cand_skip(sig: DirectorySignature, s: Seq<(Seq<Seq<char>>, Seq<Seq<char>>)>, i: int)
    requires
        0 <= i <= s.len(),
        forall|j: int| 0 <= j < i ==> !satisfies(sig, #[trigger] s[j].1),
    ensures
        first_cand_from(sig, s, 0) == first_cand_from(sig, s, i),
    decreases i,
{
    if i > 0 {
        lemma_cand_skip(sig, s, i - 1);
    }
}

/// Index of the first probe that exists and passes the signature.
pub fn first_valid_probe(sig: &DirectorySignature, probes: &Vec<Probe>) -> (r: Option<usize>)
    ensures
        r is Some <==> first_probe_from(*sig, probes@, 0) < probes@.len(),
        r is Some ==> r->Some_0 == first_probe_from(*sig, probes@, 0),
{
    let mut i: usize = 0;
    while i < probes.len()
        invariant
            i <= probes@.len(),
            forall|j: int| 0 <= j < i ==> !probe_ok(*sig, #[trigger] probes@[j]),
        decreases probes@.len() - i,
    {
        if probes[i].exists && sig.is_satisfied_by(&probes[i].entries) {
            proof { lemma_probe_skip(*sig, probes@, i as int); }
            return Some(i);
        }
        i += 1;
    }
    proof { lemma_probe_skip(*sig, probes@, i as int); }
    None
}

/// Index of the first candidate whose entries pass the signature.
pub fn first_valid_candidate(sig: &DirectorySignature, cands: &Vec<Candidate>) -> (r: Option<usize>)
    ensures
        r is Some <==> first_cand_from(*sig, cand_views(cands@), 0) < cands@.len(),
        r is Some ==> r->Some_0 == first_cand_from(*sig, cand_views(cands@), 0),
{
    let ghost cv = cand_views(cands@);
    let mut i: usize = 0;
    while i < cands.len()
        invariant
            i <= cands@.len(),
            cv == cand_views(cands@),
            forall|j: int| 0 <= j < i ==> !satisfies(*sig, #[trigger] cv[j].1),
        decreases cands@.len() - i,
    {
        if sig.is_satisfied_by(&cands[i].entries) {
            proof { lemma_cand_skip(*sig, cv, i as int); }
            return Some(i);
        }
        i += 1;
    }
    proof { lemma_cand_skip(*sig, cv, i as int); }
    None
}

/// The path of the first valid candidate of a list.
fn first_valid_candidate_path(sig: &DirectorySignature, cands: &Vec<Candidate>) -> (r: Option<Vec<String>>)
    ensures
        opt_path(r) == first_valid_path(*sig, cand_views(cands@)),
{
    match first_valid_candidate(sig, cands) {
        Some(i) => {
            let c = cands[i].path.clone();
            assert(c@ == cands@[i as int].path@);
            assert(c.deep_view() =~= cands@[i as int].path.deep_view());
            Some(c)
        },
        None => None,
    }
}

/// A location that fails the signature is passed over: when every probe
/// before `j` fails and probe `j` exists and passes, the well-known search
/// returns probe `j`'s path.
pub proof fn lemma_locations_skip_invalid(sig: DirectorySignature, probes: Seq<Probe>, j: int)
    requires
        0 <= j < probes.len(),
        forall|i: int| 0 <= i < j ==> !probe_ok(sig, #[trigger] probes[i]),
        probe_ok(sig, probes[j]),
    ensures
        first_probe_path(sig, probes) == Some(probes[j].path.deep_view()),
{
    lemma_probe_skip(sig, probes, j);
}

/// A candidate that fails the signature is passed over: when every candidate
/// before `j` fails and candidate `j` passes, the scan's choice is candidate `j`,
/// whatever order the raw discovery gave.
pub proof fn lemma_candidates_skip_invalid(sig: DirectorySignature, cands: Seq<(Seq<Seq<char>>, Seq<Seq<char>>)>, j: int)
    requires
        0 <= j < cands.len(),
        forall|i: int| 0 <= i < j ==> !satisfies(sig, #[trigger] cands[i].1),
        satisfies(sig, cands[j].1),
    ensures
        first_valid_path(sig, cands) == Some(cands[j].0),
{
    lemma_cand_skip(sig, cands, j);
}

/// A directory that failed the signature, with every missing item.
pub struct ValidationFailed {
    pub missing: Vec<String>,
}

/// Discovery of the installation directory.
pub struct GameService;

impl GameService {
    /// Validates a directory holding `entries` and, when it passes, reads its
    /// marker: present when `entries` names the marker file, its version taken
    /// from `marker_text` (the marker's content, when it could be read).
    pub fn validate_game_path(
        sig: &DirectorySignature,
        path: String,
        entries: &Vec<String>,
        marker_text: Option<&str>,
    ) -> (r: Result<GameInfo, ValidationFailed>)
        ensures
            r is Ok <==> satisfies(*sig, entries.deep_view()),
            r is Err ==> r->Err_0.missing.deep_view() == missing_of(*sig, entries.deep_view())
                && r->Err_0.missing@.len() > 0,
            r is Ok ==> ({
                let g = r->Ok_0;
                &&& g.path@ == path@
                &&& g.is_valid
                &&& g.version is None
                &&& g.has_translation == entries.deep_view().contains(MARKER_FILE@)
                &&& opt_view(g.translation_version) == (match marker_text {
                    Some(t) if g.has_translation && marker_version_of(t@) is Some => marker_version_of(
                        t@,
                    )->Some_0,
                    _ => None,
                })
            }),
    {
        let mut info = GameInfo::new(path);
        if !info.validate(sig, entries) {
            let missing = info.get_missing_files(sig, entries);
            proof { lemma_valid_iff_nothing_missing(*sig, entries.deep_view()); }
            return Err(ValidationFailed { missing });
        }
        let marker = String::from_str(MARKER_FILE);
        let present = contains_name(entries, &marker);
        info.check_translation(present, marker_text);
        Ok(info)
    }

    /// The path of the Steam installation named by the registry, when it exists.
    pub fn find_in_registry(steam: Option<Probe>) -> (r: Option<Vec<String>>)
        ensures
            opt_path(r) == (match steam {
                Some(p) if p.exists => Some(p.path.deep_view()),
                _ => None,
            }),
    {
        match steam {
            Some(p) => if p.exists {
                Some(p.path)
            } else {
                None
            },
            None => None,
        }
    }

    /// The first of the well-known locations that exists and passes.
    pub fn search_common_locations(sig: &DirectorySignature, probes: &Vec<Probe>) -> (r: Option<Vec<String>>)
        ensures
            opt_path(r) == first_probe_path(*sig, probes@),
    {
        match first_valid_probe(sig, probes) {
            Some(i) => {
                let c = probes[i].path.clone();
                assert(c@ == probes@[i as int].path@);
                assert(c.deep_view() =~= probes@[i as int].path.deep_view());
                Some(c)
            },
            None => None,
        }
    }

    /// The first valid candidate found under `root`, searched `max_depth` levels deep.
    pub fn search_directory(
        sig: &DirectorySignature,
        p: &ScanPolicy,
        root: &DirTree,
        max_depth: usize,
    ) -> (r: Option<Vec<String>>)
        ensures
            opt_path(r) == first_valid_path(*sig, scan_list(*p, root.children@, max_depth as nat, seq![root.name@])),
    {
        let mut base: Vec<String> = Vec::new();
        base.push(root.name.clone());
        assert(base.deep_view() =~= seq![root.name@]);
        let mut cands: Vec<Candidate> = Vec::new();
        collect_priconner_folders(p, &root.children, &base, max_depth, &mut cands);
        assert(cand_views(cands@) =~= scan_list(*p, root.children@, max_depth as nat, seq![root.name@]));
        first_valid_candidate_path(sig, &cands)
    }

    /// The first valid candidate found under any of the roots, in the order of the roots.
    pub fn scan_all_drives(
        sig: &DirectorySignature,
        p: &ScanPolicy,
        roots: &Vec<DirTree>,
        max_depth: usize,
    ) -> (r: Option<Vec<String>>)
        ensures
            opt_path(r) == first_valid_path(*sig, roots_scan(*p, roots@, max_depth as nat)),
    {
        let cands = find_all_priconner_folders(p, roots, max_depth);
        first_valid_candidate_path(sig, &cands)
    }

    /// The installation directory: the registry's location when it exists and
    /// passes, else the first well-known location that does, else the first
    /// valid candidate of the scan.
    pub fn auto_detect_game_path(
        sig: &DirectorySignature,
        registry: Option<Probe>,
        common: &Vec<Probe>,
        p: &ScanPolicy,
        roots: &Vec<DirTree>,
        max_depth: usize,
    ) -> (r: Option<Vec<String>>)
        ensures
            opt_path(r) == (match registry {
                Some(g) if probe_ok(*sig, g) => Some(g.path.deep_view()),
                _ => match first_probe_path(*sig, common@) {
                    Some(c) => Some(c),
                    None => first_valid_path(*sig, roots_scan(*p, roots@, max_depth as nat)),
                },
            }),
    {
        if let Some(g) = registry {
            if g.exists && sig.is_satisfied_by(&g.entries) {
                return Some(g.path);
            }
        }
        if let Some(c) = Self::search_common_locations(sig, common) {
            return Some(c);
        }
        Self::scan_all_drives(sig, p, roots, max_depth)
    }
}

} // verus!
