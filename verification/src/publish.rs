//! Building a server repository's published tree (`www/`): build options,
//! build reports, and which stale entries a build removes.
use vstd::prelude::*;

use crate::entries::ManifestEntry;
use crate::layout::CURRENT_LAYOUT_VERSION;
use crate::manifest::copy_bytes;
use crate::models::{
    addon_lookup, addon_names, contains_str, fresh_names, settings_or_default, str_views, ChecksumIndex, PackConfig,
    PammError,
};
use crate::paths::{
    components, is_absolute, join_path, join_spec, lemma_joined_relative_path_reaches_target, plain_path, push_all,
    push_component, relative_path, relative_path_spec, walk,
};
use crate::state::{select, select_exec};
use crate::server::ServerRepoHandle;

verus! {

/// How source files are placed into the published tree.
#[derive(Debug, Clone, Copy, PartialEq, Eq, Structural)]
pub enum BuildMode {
    /// Relative symbolic links (the default).
    Symlink,
    /// Copies.
    Copy,
}

/// Options of a build.
#[derive(Debug, Clone, Copy)]
pub struct BuildOptions {
    pub mode: BuildMode,
    /// Ignore the index cache and re-scan every file.
    pub force_refresh: bool,
}

impl Default for BuildOptions {
    fn default() -> (r: Self)
        ensures
            r.mode == BuildMode::Symlink,
            !r.force_refresh,
    {
        Self { mode: BuildMode::Symlink, force_refresh: false }
    }
}

/// What a build did.
#[derive(Debug)]
pub struct BuildReport {
    pub files_materialized: usize,
    pub stale_removed: usize,
    pub mode: BuildMode,
}

impl Default for BuildReport {
    fn default() -> (r: Self)
        ensures
            r.files_materialized == 0,
            r.stale_removed == 0,
            r.mode == BuildMode::Symlink,
    {
        Self { files_materialized: 0, stale_removed: 0, mode: BuildMode::Symlink }
    }
}

/// Two reports of the same mode combined: the counts add up.
pub open spec fn combined(a: BuildReport, b: BuildReport) -> BuildReport {
    BuildReport {
        files_materialized: (a.files_materialized + b.files_materialized) as usize,
        stale_removed: (a.stale_removed + b.stale_removed) as usize,
        mode: a.mode,
    }
}

impl BuildReport {
    /// An empty report of a build in `mode`.
    pub fn for_mode(mode: BuildMode) -> (r: Self)
        ensures
            r.files_materialized == 0,
            r.stale_removed == 0,
            r.mode == mode,
    {
        Self { files_materialized: 0, stale_removed: 0, mode }
    }

    /// Adds up two reports of builds in the same mode.
    pub fn add(self, rhs: Self) -> (r: Self)
        requires
            self.mode == rhs.mode,
            self.files_materialized + rhs.files_materialized <= usize::MAX,
            self.stale_removed + rhs.stale_removed <= usize::MAX,
        ensures
            r == combined(self, rhs),
            r.files_materialized == self.files_materialized + rhs.files_materialized,
            r.stale_removed == self.stale_removed + rhs.stale_removed,
    {
        Self {
            files_materialized: self.files_materialized + rhs.files_materialized,
            stale_removed: self.stale_removed + rhs.stale_removed,
            mode: self.mode,
        }
    }
}

/// Adding reports is commutative.
pub proof fn lemma_report_add_commutes(a: BuildReport, b: BuildReport)
    requires
        a.mode == b.mode,
    ensures
        combined(a, b) == combined(b, a),
{
}

/// Adding reports is associative.
pub proof fn lemma_report_add_associates(a: BuildReport, b: BuildReport, c: BuildReport)
    requires
        a.mode == b.mode,
        b.mode == c.mode,
        a.files_materialized + b.files_materialized + c.files_materialized <= usize::MAX,
        a.stale_removed + b.stale_removed + c.stale_removed <= usize::MAX,
    ensures
        combined(combined(a, b), c) == combined(a, combined(b, c)),
{
}

/// An empty report of the same mode adds nothing.
pub proof fn lemma_report_add_empty(a: BuildReport, e: BuildReport)
    requires
        e.mode == a.mode,
        e.files_materialized == 0,
        e.stale_removed == 0,
    ensures
        combined(a, e) == a,
{
}

/// What a build does with an entry of the published tree's top level.
#[derive(Debug, PartialEq, Eq, Structural)]
pub enum WwwEntryAction {
    Keep,
    RemoveDir,
    RemoveFile,
}

/// Whether `s` ends with `suffix`.
pub open spec fn ends_with(s: Seq<char>, suffix: Seq<char>) -> bool {
    suffix.len() <= s.len() && s.subrange(s.len() - suffix.len(), s.len() as int) == suffix
}

/// `_pack_addons`, the suffix of the addon folders of the legacy flat layout.
pub open spec fn legacy_addons_suffix() -> Seq<char> {
    seq!['_', 'p', 'a', 'c', 'k', '_', 'a', 'd', 'd', 'o', 'n', 's']
}

/// `.pack.config.json`, the suffix of the pack configurations of the legacy
/// flat layout.
pub open spec fn legacy_config_suffix() -> Seq<char> {
    seq!['.', 'p', 'a', 'c', 'k', '.', 'c', 'o', 'n', 'f', 'i', 'g', '.', 'j', 's', 'o', 'n']
}

/// What a build does with a top-level entry `name` of the published tree:
/// folders of the legacy layout, and pack folders (those holding a pack
/// configuration) of packs no longer configured, are removed; so are
/// top-level pack configurations of the legacy layout. Everything else is
/// kept.
pub open spec fn www_entry_action(
    name: Seq<char>,
    is_dir: bool,
    is_file: bool,
    has_pack_config: bool,
    packs: Seq<Seq<char>>,
) -> WwwEntryAction {
    if is_dir {
        if ends_with(name, legacy_addons_suffix()) || (has_pack_config && !packs.contains(name)) {
            WwwEntryAction::RemoveDir
        } else {
            WwwEntryAction::Keep
        }
    } else if is_file && ends_with(name, legacy_config_suffix()) {
        WwwEntryAction::RemoveFile
    } else {
        WwwEntryAction::Keep
    }
}

/// Whether `s` ends with `suffix`.
pub fn str_ends_with(s: &str, suffix: &str) -> (r: bool)
    ensures
        r == ends_with(s@, suffix@),
{
    let sc = crate::text::chars_of(s);
    let xc = crate::text::chars_of(suffix);
    if xc.len() > sc.len() {
        return false;
    }
    let off = sc.len() - xc.len();
    let mut i: usize = 0;
    while i < xc.len()
        invariant
            sc@ == s@,
            xc@ == suffix@,
            off == sc.len() - xc.len(),
            i <= xc.len(),
            forall|j: int| 0 <= j < i ==> s@[off + j] == suffix@[j],
        decreases xc.len() - i,
    {
        if sc[off + i] != xc[i] {
            assert(s@.subrange(off as int, s@.len() as int)[i as int] != suffix@[i as int]);
            return false;
        }
        i = i + 1;
    }
    assert(s@.subrange(off as int, s@.len() as int) =~= suffix@);
    true
}

/// Decides what a build does with a top-level entry of the published tree
/// (see [`www_entry_action`]).
pub fn classify_www_entry(
    name: &str,
    is_dir: bool,
    is_file: bool,
    has_pack_config: bool,
    pack_names: &Vec<String>,
) -> (r: WwwEntryAction)
    ensures
        r == www_entry_action(name@, is_dir, is_file, has_pack_config, str_views(pack_names@)),
{
    proof {
        reveal_strlit("_pack_addons");
        reveal_strlit(".pack.config.json");
        assert("_pack_addons"@ =~= legacy_addons_suffix());
        assert(".pack.config.json"@ =~= legacy_config_suffix());
    }
    if is_dir {
        let legacy = str_ends_with(name, "_pack_addons");
        let stale = has_pack_config && !contains_str(pack_names, name);
        if legacy || stale {
            WwwEntryAction::RemoveDir
        } else {
            WwwEntryAction::Keep
        }
    } else if is_file && str_ends_with(name, ".pack.config.json") {
        WwwEntryAction::RemoveFile
    } else {
        WwwEntryAction::Keep
    }
}

/// `www`, the published tree's folder inside the repository.
pub open spec fn www_name() -> Seq<char> {
    seq!['w', 'w', 'w']
}

/// Places source files into the published tree, as relative symbolic links
/// or as copies.
#[derive(Debug)]
pub struct Materializer {
    pub mode: BuildMode,
    pub src: String,
    pub dest: String,
}

impl Materializer {
    /// A materializer from the source tree `src` to the published tree `dest`.
    pub fn new(mode: BuildMode, src: &str, dest: &str) -> (r: Self)
        ensures
            r.mode == mode,
            r.src@ == src@,
            r.dest@ == dest@,
    {
        Self {
            mode,
            src: crate::text::to_owned_string(src),
            dest: crate::text::to_owned_string(dest),
        }
    }
}

impl ServerRepoHandle {
    /// The published tree: `<repo>/www`.
    pub fn get_www_path(&self) -> (r: String)
        ensures
            r@ == join_spec(self.base.repo_path@, www_name()),
    {
        proof {
            reveal_strlit("www");
            assert("www"@ =~= www_name());
        }
        join_path(self.base.repo_path.as_str(), "www")
    }

    /// Starts building one pack's subtree of the published tree: the pack
    /// must be registered in the repository configuration; the materializer
    /// places files from the repository into `<repo>/www` in the chosen mode.
    pub fn build_pack(&self, pack_name: &str, opts: BuildOptions) -> (r: Result<Materializer, PammError>)
        ensures
            !str_views(self.base.repo_config.packs@).contains(pack_name@) ==> (r matches Err(e)
                && (e matches PammError::PackNotFound(n) && n@ == pack_name@)),
            str_views(self.base.repo_config.packs@).contains(pack_name@) ==> (r matches Ok(m) && m.mode
                == opts.mode && m.src@ == self.base.repo_path@ && m.dest@ == join_spec(
                self.base.repo_path@,
                www_name(),
            )),
    {
        if !contains_str(&self.base.repo_config.packs, pack_name) {
            return Err(PammError::PackNotFound(crate::text::to_owned_string(pack_name)));
        }
        let www = self.get_www_path();
        Ok(Materializer::new(opts.mode, self.base.repo_path.as_str(), www.as_str()))
    }
}

/// What is found at a path of the published tree before a file is placed
/// there.
#[derive(Debug, Clone, Copy, PartialEq, Eq)]
pub enum ExistingEntry {
    Missing,
    Symlink,
    File,
    Dir,
}

/// What to remove before a file is placed.
#[derive(Debug, Clone, Copy, PartialEq, Eq)]
pub enum ClearAction {
    Nothing,
    RemoveFile,
    RemoveDir,
}

/// What a source entry is.
#[derive(Debug, Clone, Copy, PartialEq, Eq)]
pub enum SourceKind {
    File,
    Dir,
    Other,
}

/// What a build does with one entry of a source folder.
#[derive(Debug)]
pub enum DirStep {
    /// Place the file of this name.
    Place(String),
    /// Materialize the folder of this name.
    Enter(String),
    /// Stop with an error: the entry is neither file nor folder.
    Refuse(String),
}

/// Model of a [`DirStep`].
pub enum DirStepV {
    Place(Seq<char>),
    Enter(Seq<char>),
    Refuse(Seq<char>),
}

/// The model of a folder step.
pub open spec fn dir_step_view(s: DirStep) -> DirStepV {
    match s {
        DirStep::Place(n) => DirStepV::Place(n@),
        DirStep::Enter(n) => DirStepV::Enter(n@),
        DirStep::Refuse(n) => DirStepV::Refuse(n@),
    }
}

/// The step for one source entry.
pub open spec fn entry_step(name: Seq<char>, kind: SourceKind) -> DirStepV {
    match kind {
        SourceKind::File => DirStepV::Place(name),
        SourceKind::Dir => DirStepV::Enter(name),
        SourceKind::Other => DirStepV::Refuse(name),
    }
}

/// The steps for the entries of a source folder, in order, leaving out the
/// entries named in `excluded`, up to and including the first entry that is
/// neither file nor folder.
pub open spec fn dir_steps_spec(
    entries: Seq<(Seq<char>, SourceKind)>,
    excluded: Seq<Seq<char>>,
) -> Seq<DirStepV>
    decreases entries.len(),
{
    if entries.len() == 0 {
        Seq::empty()
    } else {
        let before = dir_steps_spec(entries.drop_last(), excluded);
        if (before.len() > 0 && before.last() is Refuse) || excluded.contains(entries.last().0) {
            before
        } else {
            before.push(entry_step(entries.last().0, entries.last().1))
        }
    }
}

/// The names and kinds of source entries.
pub open spec fn entries_view(e: Seq<(String, SourceKind)>) -> Seq<(Seq<char>, SourceKind)> {
    Seq::new(e.len(), |i: int| (e[i].0@, e[i].1))
}

/// What placing a file in `mode` must clear first: a symbolic link replaces
/// a file or folder left by a copying build; a copy replaces a symbolic link
/// left by a linking build. Anything else is overwritten in place.
pub open spec fn clear_action(mode: BuildMode, existing: ExistingEntry) -> ClearAction {
    match (mode, existing) {
        (BuildMode::Symlink, ExistingEntry::Dir) => ClearAction::RemoveDir,
        (BuildMode::Symlink, ExistingEntry::File) => ClearAction::RemoveFile,
        (BuildMode::Copy, ExistingEntry::Symlink) => ClearAction::RemoveFile,
        _ => ClearAction::Nothing,
    }
}

/// A path built from a base and components.
fn push_all_exec(base: &str, parts: &Vec<String>, n: usize) -> (r: String)
    requires
        n <= parts.len(),
    ensures
        r@ == push_all(base@, str_views(parts@).take(n as int)),
{
    let mut r = crate::text::to_owned_string(base);
    let mut i: usize = 0;
    proof {
        assert(str_views(parts@).take(0) =~= Seq::<Seq<char>>::empty());
    }
    while i < n
        invariant
            i <= n,
            n <= parts.len(),
            r@ == push_all(base@, str_views(parts@).take(i as int)),
        decreases n - i,
    {
        proof {
            assert(str_views(parts@).take(i + 1).drop_last() =~= str_views(parts@).take(i as int));
            assert(str_views(parts@).take(i + 1).last() == parts@[i as int]@);
        }
        push_component(&mut r, parts[i].as_str());
        i = i + 1;
    }
    r
}

impl Materializer {
    /// The folder of the published tree that holds the entry with components
    /// `rel`.
    pub open spec fn link_dir_spec(&self, rel: Seq<Seq<char>>) -> Seq<char> {
        push_all(self.dest@, rel.drop_last())
    }

    /// The target of the link placed for the file with components `rel`: the
    /// relative path from the folder holding it to the source file.
    pub open spec fn link_target_spec(&self, rel: Seq<Seq<char>>) -> Seq<char> {
        relative_path_spec(self.link_dir_spec(rel), push_all(self.src@, rel))
    }

    /// The path of the entry with components `rel` in the source tree.
    pub fn source_path(&self, rel: &Vec<String>) -> (r: String)
        ensures
            r@ == push_all(self.src@, str_views(rel@)),
    {
        let r = push_all_exec(self.src.as_str(), rel, rel.len());
        assert(str_views(rel@).take(rel.len() as int) =~= str_views(rel@));
        r
    }

    /// The path of the entry with components `rel` in the published tree.
    pub fn dest_path(&self, rel: &Vec<String>) -> (r: String)
        ensures
            r@ == push_all(self.dest@, str_views(rel@)),
    {
        let r = push_all_exec(self.dest.as_str(), rel, rel.len());
        assert(str_views(rel@).take(rel.len() as int) =~= str_views(rel@));
        r
    }

    /// The target of the symbolic link placed for the file with components
    /// `rel`: the relative path from the folder holding the link to the
    /// source file, so that the tree stays valid wherever it is moved.
    pub fn link_target(&self, rel: &Vec<String>) -> (r: String)
        requires
            rel.len() >= 1,
        ensures
            r@ == self.link_target_spec(str_views(rel@)),
    {
        let parent = push_all_exec(self.dest.as_str(), rel, rel.len() - 1);
        let source = self.source_path(rel);
        proof {
            assert(str_views(rel@).take(rel.len() - 1) =~= str_views(rel@).drop_last());
        }
        match relative_path(parent.as_str(), source.as_str()) {
            Some(t) => t,
            None => String::new(),
        }
    }

    /// What to remove before placing a file where `existing` is found (see
    /// [`clear_action`]).
    pub fn clear_before_place(&self, existing: ExistingEntry) -> (r: ClearAction)
        ensures
            r == clear_action(self.mode, existing),
    {
        match (self.mode, existing) {
            (BuildMode::Symlink, ExistingEntry::Dir) => ClearAction::RemoveDir,
            (BuildMode::Symlink, ExistingEntry::File) => ClearAction::RemoveFile,
            (BuildMode::Copy, ExistingEntry::Symlink) => ClearAction::RemoveFile,
            _ => ClearAction::Nothing,
        }
    }

    /// The report of materializing a single file.
    pub fn file_report(&self) -> (r: BuildReport)
        ensures
            r.mode == self.mode,
            r.files_materialized == 1,
            r.stale_removed == 0,
    {
        BuildReport { files_materialized: 1, stale_removed: 0, mode: self.mode }
    }
}

/// The entries of a published folder that its source folder lacks, or that
/// are `excluded` from publishing: they are removed, in the published
/// folder's order.
pub fn stale_entries(src_names: &Vec<String>, dst_names: &Vec<String>, excluded: &Vec<String>) -> (r: Vec<
    String,
>)
    ensures
        str_views(r@) == select(
            str_views(dst_names@),
            select(str_views(src_names@), str_views(excluded@), false),
            false,
        ),
{
    let published = select_exec(src_names, excluded, false);
    select_exec(dst_names, &published, false)
}

/// The steps for the entries of a source folder (see [`dir_steps_spec`]):
/// files are placed and folders entered in order, entries named in
/// `excluded` are left out; the first entry that is neither file nor folder
/// stops the build with an error.
pub fn dir_steps(entries: &Vec<(String, SourceKind)>, excluded: &Vec<String>) -> (r: Vec<DirStep>)
    ensures
        r@.len() == dir_steps_spec(entries_view(entries@), str_views(excluded@)).len(),
        forall|i: int|
            0 <= i < r@.len() ==> dir_step_view(#[trigger] r@[i]) == dir_steps_spec(
                entries_view(entries@),
                str_views(excluded@),
            )[i],
{
    let ghost ev = entries_view(entries@);
    let ghost ex = str_views(excluded@);
    let mut r: Vec<DirStep> = Vec::new();
    let mut i: usize = 0;
    proof {
        assert(ev.take(0) =~= Seq::<(Seq<char>, SourceKind)>::empty());
        assert(ev.take(entries.len() as int) =~= ev);
    }
    while i < entries.len()
        invariant_except_break
            i <= entries.len(),
            r@.len() == dir_steps_spec(ev.take(i as int), ex).len(),
            forall|j: int|
                0 <= j < r@.len() ==> dir_step_view(#[trigger] r@[j]) == dir_steps_spec(
                    ev.take(i as int),
                    ex,
                )[j],
            r@.len() == 0 || !(dir_steps_spec(ev.take(i as int), ex).last() is Refuse),
        invariant
            ev == entries_view(entries@),
            ex == str_views(excluded@),
            ev.take(entries.len() as int) == ev,
        ensures
            r@.len() == dir_steps_spec(ev, ex).len(),
            forall|j: int|
                0 <= j < r@.len() ==> dir_step_view(#[trigger] r@[j]) == dir_steps_spec(ev, ex)[j],
        decreases entries.len() - i,
    {
        let ghost t = ev.take(i + 1);
        proof {
            assert(t.drop_last() =~= ev.take(i as int));
            assert(t.last() == ev[i as int]);
        }
        if !contains_str(excluded, entries[i].0.as_str()) {
            let name = entries[i].0.clone();
            match entries[i].1 {
                SourceKind::File => r.push(DirStep::Place(name)),
                SourceKind::Dir => r.push(DirStep::Enter(name)),
                SourceKind::Other => {
                    r.push(DirStep::Refuse(name));
                    proof {
                        lemma_dir_steps_stop(ev, ex, i + 1);
                    }
                    break;
                },
            }
        }
        i = i + 1;
    }
    r
}

proof fn lemma_dir_steps_stop(ev: Seq<(Seq<char>, SourceKind)>, ex: Seq<Seq<char>>, k: int)
    requires
        0 < k <= ev.len(),
        dir_steps_spec(ev.take(k), ex).len() > 0,
        dir_steps_spec(ev.take(k), ex).last() is Refuse,
    ensures
        dir_steps_spec(ev, ex) == dir_steps_spec(ev.take(k), ex),
    decreases ev.len() - k,
{
    if k < ev.len() {
        assert(ev.take(k + 1).drop_last() =~= ev.take(k));
        lemma_dir_steps_stop(ev, ex, k + 1);
    } else {
        assert(ev.take(k) =~= ev);
    }
}

/// `indexes`, the folder of a pack's indexes in the published tree.
pub open spec fn indexes_name() -> Seq<char> {
    seq!['i', 'n', 'd', 'e', 'x', 'e', 's']
}

/// `checksum_index.pamm`, the file of a pack's checksum index.
pub open spec fn checksum_index_name() -> Seq<char> {
    seq!['c', 'h', 'e', 'c', 'k', 's', 'u', 'm', '_', 'i', 'n', 'd', 'e', 'x', '.', 'p', 'a', 'm', 'm']
}

/// `.index.pamm`, what follows an addon's name in the name of its index
/// file.
pub open spec fn addon_index_suffix() -> Seq<char> {
    seq!['.', 'i', 'n', 'd', 'e', 'x', '.', 'p', 'a', 'm', 'm']
}

/// `version.pamm`, the file that records a tree's layout version.
pub open spec fn version_file_name() -> Seq<char> {
    seq!['v', 'e', 'r', 's', 'i', 'o', 'n', '.', 'p', 'a', 'm', 'm']
}

/// The names and checksums of a pack's addons, in their order.
pub fn checksum_index_of(addons: &Vec<ManifestEntry>) -> (r: ChecksumIndex)
    ensures
        r.checksums@.len() == addons@.len(),
        forall|i: int|
            0 <= i < addons@.len() ==> (#[trigger] r.checksums@[i]).0@ == addons@[i].name@
                && r.checksums@[i].1@ == addons@[i].checksum@,
{
    let mut checksums: Vec<(String, Vec<u8>)> = Vec::new();
    let mut i: usize = 0;
    while i < addons.len()
        invariant
            i <= addons.len(),
            checksums@.len() == i,
            forall|j: int|
                0 <= j < i ==> (#[trigger] checksums@[j]).0@ == addons@[j].name@ && checksums@[j].1@
                    == addons@[j].checksum@,
        decreases addons.len() - i,
    {
        checksums.push((crate::text::to_owned_string(addons[i].name.as_str()), copy_bytes(&addons[i].checksum)));
        i = i + 1;
    }
    ChecksumIndex { checksums }
}

/// The configuration `after` is `before` with its addons made those an index
/// found (`found`, each name once, in the order found): an addon already
/// configured keeps its settings, a new one is required.
pub open spec fn config_follows_index(before: PackConfig, after: PackConfig, found: Seq<Seq<char>>) -> bool {
    &&& after.name@ == before.name@
    &&& after.parent == before.parent
    &&& after.client_params == before.client_params
    &&& after.description == before.description
    &&& addon_names(after.addons@) == fresh_names(Seq::empty(), found)
    &&& forall|i: int|
        0 <= i < after.addons@.len() ==> #[trigger] after.addons@[i].1 == settings_or_default(
            addon_lookup(before.addons@, after.addons@[i].0@),
        )
}

/// What publishing a pack writes besides placing its files: its checksum
/// index and the index file of each addon into `www/<pack>/indexes/`, its
/// configuration as the index leaves it, and the layout version of the
/// published tree.
pub struct PackPublication {
    /// `www/<pack>/indexes/checksum_index.pamm`.
    pub checksum_index_path: String,
    /// The checksum of each addon.
    pub checksum_index: ChecksumIndex,
    /// `www/<pack>/indexes/<addon>.index.pamm`, one per addon, in the
    /// addons' order.
    pub addon_index_paths: Vec<String>,
    /// The pack's configuration, with the addons the index found.
    pub config: PackConfig,
    /// `www/version.pamm`.
    pub version_path: String,
    /// The layout version to record there.
    pub layout_version: u64,
}

impl ServerRepoHandle {
    /// `www/<pack>/indexes`.
    pub open spec fn indexes_dir_spec(&self, pack_name: Seq<char>) -> Seq<char> {
        join_spec(join_spec(join_spec(self.base.repo_path@, www_name()), pack_name), indexes_name())
    }

    /// What publishing pack `pack_name` writes, once its addons were indexed
    /// into `addons` (each addon folder's index entry) and given its current
    /// configuration `config`. The pack must be registered in the
    /// repository configuration.
    pub fn pack_publication(&self, pack_name: &str, config: PackConfig, addons: &Vec<ManifestEntry>) -> (r: Result<
        PackPublication,
        PammError,
    >)
        ensures
            !str_views(self.base.repo_config.packs@).contains(pack_name@) ==> (r matches Err(e)
                && (e matches PammError::PackNotFound(n) && n@ == pack_name@)),
            str_views(self.base.repo_config.packs@).contains(pack_name@) ==> (r matches Ok(p) && {
                &&& p.checksum_index_path@ == join_spec(self.indexes_dir_spec(pack_name@), checksum_index_name())
                &&& p.checksum_index.checksums@.len() == addons@.len()
                &&& forall|i: int|
                    0 <= i < addons@.len() ==> (#[trigger] p.checksum_index.checksums@[i]).0@
                        == addons@[i].name@ && p.checksum_index.checksums@[i].1@ == addons@[i].checksum@
                &&& p.addon_index_paths@.len() == addons@.len()
                &&& forall|i: int|
                    0 <= i < addons@.len() ==> (#[trigger] p.addon_index_paths@[i])@ == join_spec(
                        self.indexes_dir_spec(pack_name@),
                        addons@[i].name@ + addon_index_suffix(),
                    )
                &&& config_follows_index(config, p.config, Seq::new(addons@.len(), |i: int| addons@[i].name@))
                &&& p.version_path@ == join_spec(join_spec(self.base.repo_path@, www_name()), version_file_name())
                &&& p.layout_version == CURRENT_LAYOUT_VERSION
            }),
    {
        if !contains_str(&self.base.repo_config.packs, pack_name) {
            return Err(PammError::PackNotFound(crate::text::to_owned_string(pack_name)));
        }
        proof {
            reveal_strlit("indexes");
            reveal_strlit("checksum_index.pamm");
            reveal_strlit(".index.pamm");
            reveal_strlit("version.pamm");
            assert("indexes"@ =~= indexes_name());
            assert("checksum_index.pamm"@ =~= checksum_index_name());
            assert(".index.pamm"@ =~= addon_index_suffix());
            assert("version.pamm"@ =~= version_file_name());
        }
        let www = self.get_www_path();
        let pack_dir = join_path(www.as_str(), pack_name);
        let indexes_dir = join_path(pack_dir.as_str(), "indexes");
        let checksum_index_path = join_path(indexes_dir.as_str(), "checksum_index.pamm");
        let checksum_index = checksum_index_of(addons);
        let mut addon_index_paths: Vec<String> = Vec::new();
        let mut names: Vec<String> = Vec::new();
        let mut i: usize = 0;
        while i < addons.len()
            invariant
                i <= addons.len(),
                indexes_dir@ == self.indexes_dir_spec(pack_name@),
                ".index.pamm"@ == addon_index_suffix(),
                addon_index_paths@.len() == i,
                names@.len() == i,
                forall|j: int|
                    0 <= j < i ==> (#[trigger] addon_index_paths@[j])@ == join_spec(
                        indexes_dir@,
                        addons@[j].name@ + addon_index_suffix(),
                    ),
                forall|j: int| 0 <= j < i ==> (#[trigger] names@[j])@ == addons@[j].name@,
            decreases addons.len() - i,
        {
            let mut file_name = crate::text::to_owned_string(addons[i].name.as_str());
            file_name.append(".index.pamm");
            addon_index_paths.push(join_path(indexes_dir.as_str(), file_name.as_str()));
            names.push(crate::text::to_owned_string(addons[i].name.as_str()));
            i = i + 1;
        }
        let mut config = config;
        config.sync_addons_with_index(&names);
        proof {
            assert(str_views(names@) =~= Seq::new(addons@.len(), |i: int| addons@[i].name@));
        }
        let version_path = join_path(www.as_str(), "version.pamm");
        Ok(
            PackPublication {
                checksum_index_path,
                checksum_index,
                addon_index_paths,
                config,
                version_path,
                layout_version: CURRENT_LAYOUT_VERSION,
            },
        )
    }
}

/// The link placed for a file leads to its source: joined onto the folder
/// holding the link, then read with each `..` taking back the component
/// before it, the link's target gives the components of the source file.
/// This holds where that folder and the source file are both absolute paths
/// (or both relative) and have no `.` or `..` component.
pub proof fn lemma_link_leads_to_source(m: Materializer, rel: Seq<Seq<char>>)
    requires
        rel.len() >= 1,
        plain_path(m.link_dir_spec(rel)),
        plain_path(push_all(m.src@, rel)),
        is_absolute(m.link_dir_spec(rel)) == is_absolute(push_all(m.src@, rel)),
    ensures
        walk(Seq::empty(), components(join_spec(m.link_dir_spec(rel), m.link_target_spec(rel))))
            == components(push_all(m.src@, rel)),
{
    lemma_joined_relative_path_reaches_target(m.link_dir_spec(rel), push_all(m.src@, rel));
}

/// A name ends with a suffix exactly when it is some text followed by that
/// suffix.
pub proof fn lemma_ends_with_split(s: Seq<char>, suffix: Seq<char>)
    ensures
        ends_with(s, suffix) <==> exists|prefix: Seq<char>| #[trigger] (prefix + suffix) == s,
{
    if ends_with(s, suffix) {
        let prefix = s.subrange(0, s.len() - suffix.len());
        assert(prefix + suffix =~= s);
    }
    if exists|prefix: Seq<char>| #[trigger] (prefix + suffix) == s {
        let prefix = choose|prefix: Seq<char>| #[trigger] (prefix + suffix) == s;
        assert(s.subrange(s.len() - suffix.len(), s.len() as int) =~= suffix);
    }
}

/// Before a file is placed, only what is in the way goes: a missing
/// destination needs nothing removed, whatever the mode; a link is placed
/// over anything but a link, so only a file or a folder (a folder whole) is
/// removed first; a copy is written over anything but a link, so only a
/// link is removed first.
pub proof fn lemma_clear_only_what_blocks(mode: BuildMode, existing: ExistingEntry)
    ensures
        existing == ExistingEntry::Missing ==> clear_action(mode, existing) == ClearAction::Nothing,
        mode == BuildMode::Symlink ==> (clear_action(mode, existing) != ClearAction::Nothing <==> (existing
            == ExistingEntry::File || existing == ExistingEntry::Dir)),
        mode == BuildMode::Symlink && existing == ExistingEntry::Dir ==> clear_action(mode, existing)
            == ClearAction::RemoveDir,
        mode == BuildMode::Symlink && existing == ExistingEntry::File ==> clear_action(mode, existing)
            == ClearAction::RemoveFile,
        mode == BuildMode::Copy ==> (clear_action(mode, existing) != ClearAction::Nothing <==> existing
            == ExistingEntry::Symlink),
        mode == BuildMode::Copy ==> clear_action(mode, existing) != ClearAction::RemoveDir,
{
}

/// What a build keeps at the top of the published tree: the folder of any
/// configured pack (wherever it stands among the packs) that is not a folder
/// of the legacy layout, and any folder holding no pack configuration, are
/// kept; a folder holding a pack configuration of a pack no longer
/// configured, and every legacy addons folder, are removed. A file is
/// removed exactly when it is a legacy pack configuration.
pub proof fn lemma_www_prune_keeps_configured_packs(
    name: Seq<char>,
    is_dir: bool,
    is_file: bool,
    has_pack_config: bool,
    packs: Seq<Seq<char>>,
)
    ensures
        is_dir && packs.contains(name) && !ends_with(name, legacy_addons_suffix()) ==> www_entry_action(
            name,
            is_dir,
            is_file,
            has_pack_config,
            packs,
        ) == WwwEntryAction::Keep,
        is_dir && !has_pack_config && !ends_with(name, legacy_addons_suffix()) ==> www_entry_action(
            name,
            is_dir,
            is_file,
            has_pack_config,
            packs,
        ) == WwwEntryAction::Keep,
        is_dir && has_pack_config && !packs.contains(name) ==> www_entry_action(
            name,
            is_dir,
            is_file,
            has_pack_config,
            packs,
        ) == WwwEntryAction::RemoveDir,
        is_dir && ends_with(name, legacy_addons_suffix()) ==> www_entry_action(
            name,
            is_dir,
            is_file,
            has_pack_config,
            packs,
        ) == WwwEntryAction::RemoveDir,
        !is_dir ==> (www_entry_action(name, is_dir, is_file, has_pack_config, packs) == WwwEntryAction::RemoveFile
            <==> is_file && ends_with(name, legacy_config_suffix())),
        !is_dir ==> www_entry_action(name, is_dir, is_file, has_pack_config, packs) != WwwEntryAction::RemoveDir,
        is_dir ==> www_entry_action(name, is_dir, is_file, has_pack_config, packs) != WwwEntryAction::RemoveFile,
{
}

} // verus!
