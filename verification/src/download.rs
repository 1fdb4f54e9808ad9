//! Bringing a client's copy of a pack in line with a diff: the steps that
//! create folders, download and patch files and delete vanished ones, each
//! with the URL its data comes from.
use vstd::prelude::*;

use crate::manifest::{PackManifest, lemma_parts_view, name_of, part_view, parts_view, pbo_parts_view, File, PackPart, PboPartV, PartV};
use crate::pack_diff::{
    lemma_manifest_diff_self_empty, manifest_diff_spec, bytes_seqs, diff_view, diffs_view, lemma_diffs_view, pack_diff_view, DiffV, FileModification,
    PBOModification, PackDiff, PackDiffV, PartDiff, PartModification,
};
use crate::paths::{join_path, join_spec};
use crate::text::push_char;

verus! {

#[verifier::external_type_specification]
#[verifier::external_body]
pub struct ExUrlParseError(url::ParseError);

/// The URL that `reference` resolves to against the base URL `base`; none
/// where `base` is no URL or the reference cannot be resolved.
pub uninterp spec fn url_resolved(base: Seq<char>, reference: Seq<char>) -> Option<Seq<char>>;

/// Parses `base` (`url::Url::parse`) and resolves `reference` against it
/// (`url::Url::join`), giving the resulting URL as text. Both calls are pure
/// functions of their input, so the outcome is named after the two strings;
/// nothing more is claimed about it.
#[verifier::external_body]
pub(crate) fn url_join(base: &str, reference: &str) -> (r: Result<String, url::ParseError>)
    ensures
        match r {
            Ok(s) => url_resolved(base@, reference@) == Some(s@),
            Err(_) => url_resolved(base@, reference@) is None,
        },
{
    let base_url = url::Url::parse(base)?;
    Ok(String::from(base_url.join(reference)?))
}

/// One step of bringing a pack's files in line with a diff.
#[derive(Debug)]
pub enum DownloadStep<'a> {
    /// Create the directory at `path`, with any missing parents.
    CreateDir { path: String },
    /// Download the file at `url` into `path`, replacing what is there.
    Download { path: String, url: String },
    /// Rebuild the PBO archive at `path`: the parts that `modification`
    /// requires come from `url`, the others from the archive at `path`.
    PatchPbo { path: String, url: String, modification: &'a PBOModification },
    /// Remove `path` if it is a file; a directory stays where it is.
    DeleteFile { path: String },
}

/// The steps that bring a pack in line with a diff, in order, and the URL
/// reference that could not be resolved, if planning stopped there.
#[derive(Debug)]
pub struct DownloadPlan<'a> {
    pub steps: Vec<DownloadStep<'a>>,
    pub failed: Option<String>,
}

/// Model of a [`DownloadStep`].
pub enum StepV {
    CreateDir(Seq<char>),
    Download(Seq<char>, Seq<char>),
    PatchPbo {
        path: Seq<char>,
        url: Seq<char>,
        name: Seq<char>,
        target_checksum: Seq<u8>,
        new_order: Seq<PboPartV>,
        required_parts: Seq<Seq<u8>>,
        blob_offset: u64,
    },
    DeleteFile(Seq<char>),
}

/// The model of a step.
pub open spec fn step_view(s: DownloadStep) -> StepV {
    match s {
        DownloadStep::CreateDir { path } => StepV::CreateDir(path@),
        DownloadStep::Download { path, url } => StepV::Download(path@, url@),
        DownloadStep::PatchPbo { path, url, modification } => StepV::PatchPbo {
            path: path@,
            url: url@,
            name: modification.name@,
            target_checksum: modification.target_checksum@,
            new_order: pbo_parts_view(modification.new_order@),
            required_parts: bytes_seqs(modification.required_parts@),
            blob_offset: modification.blob_offset,
        },
        DownloadStep::DeleteFile { path } => StepV::DeleteFile(path@),
    }
}

/// The models of a sequence of steps.
pub open spec fn steps_view(s: Seq<DownloadStep>) -> Seq<StepV> {
    Seq::new(s.len(), |i: int| step_view(s[i]))
}

/// The model of an optional string.
pub open spec fn opt_view(o: Option<String>) -> Option<Seq<char>> {
    match o {
        Some(s) => Some(s@),
        None => None,
    }
}

/// A plan: its steps, and the reference that stopped it, if any.
pub type PlanV = (Seq<StepV>, Option<Seq<char>>);

/// Plan `a` followed by plan `b`, unless `a` stopped.
pub open spec fn and_next(a: PlanV, b: PlanV) -> PlanV {
    if a.1 is Some {
        a
    } else {
        (a.0 + b.0, b.1)
    }
}

/// The plan that stops at `reference`.
pub open spec fn stopped(reference: Seq<char>) -> PlanV {
    (Seq::empty(), Some(reference))
}

/// The one-step plan `s`.
pub open spec fn single(s: StepV) -> PlanV {
    (seq![s], None)
}

/// A name with a trailing `/`: the URL reference of a folder.
pub open spec fn with_slash(name: Seq<char>) -> Seq<char> {
    name.push('/')
}

/// The plan that creates part `p` of the new version in the directory `dir`
/// from the URL `url`: a folder is created, then its children in order; a
/// file is downloaded.
pub open spec fn created_plan(p: PartV, dir: Seq<char>, url: Seq<char>) -> PlanV
    decreases p,
{
    match p {
        PartV::Folder { name, children, .. } => match url_resolved(url, with_slash(name)) {
            None => stopped(with_slash(name)),
            Some(u) => and_next(
                single(StepV::CreateDir(join_spec(dir, name))),
                created_all_plan(children, join_spec(dir, name), u),
            ),
        },
        _ => match url_resolved(url, name_of(p)) {
            None => stopped(name_of(p)),
            Some(u) => single(StepV::Download(join_spec(dir, name_of(p)), u)),
        },
    }
}

/// The plans creating each of `ps`, in order.
pub open spec fn created_all_plan(ps: Seq<PartV>, dir: Seq<char>, url: Seq<char>) -> PlanV
    decreases ps,
{
    if ps.len() == 0 {
        (Seq::empty(), None)
    } else {
        and_next(created_all_plan(ps.drop_last(), dir, url), created_plan(ps[ps.len() - 1], dir, url))
    }
}

/// The plan for one difference in directory `dir` fetched from `url`: a
/// created part is created, a deleted name removed, a changed generic file
/// downloaded again, a changed PBO patched, a changed folder entered.
pub open spec fn diff_plan(d: DiffV, dir: Seq<char>, url: Seq<char>) -> PlanV
    decreases d,
{
    match d {
        DiffV::Created(p) => created_plan(p, dir, url),
        DiffV::Deleted(n) => single(StepV::DeleteFile(join_spec(dir, n))),
        DiffV::ModifiedGeneric { name, .. } => match url_resolved(url, name) {
            None => stopped(name),
            Some(u) => single(StepV::Download(join_spec(dir, name), u)),
        },
        DiffV::ModifiedPbo { name, target_checksum, new_order, required_parts, blob_offset } => match url_resolved(
            url,
            name,
        ) {
            None => stopped(name),
            Some(u) => single(
                StepV::PatchPbo {
                    path: join_spec(dir, name),
                    url: u,
                    name,
                    target_checksum,
                    new_order,
                    required_parts,
                    blob_offset,
                },
            ),
        },
        DiffV::ModifiedFolder { name, changes } => match url_resolved(url, with_slash(name)) {
            None => stopped(with_slash(name)),
            Some(u) => diffs_plan(changes, join_spec(dir, name), u),
        },
    }
}

/// The plans for each of `ds`, in order.
pub open spec fn diffs_plan(ds: Seq<DiffV>, dir: Seq<char>, url: Seq<char>) -> PlanV
    decreases ds,
{
    if ds.len() == 0 {
        (Seq::empty(), None)
    } else {
        and_next(diffs_plan(ds.drop_last(), dir, url), diff_plan(ds[ds.len() - 1], dir, url))
    }
}

/// The directory of a pack's required addons: `required`.
pub open spec fn required_dir() -> Seq<char> {
    seq!['r', 'e', 'q', 'u', 'i', 'r', 'e', 'd']
}

/// The directory of a pack's optional addons: `optional`.
pub open spec fn optional_dir() -> Seq<char> {
    seq!['o', 'p', 't', 'i', 'o', 'n', 'a', 'l']
}

/// The plan for a pack diff applied to the pack at `pack_dir`, fetched from
/// the pack's base URL `base_url`: the required changes in `required/`, then
/// the optional ones in `optional/`.
pub open spec fn pack_plan(d: PackDiffV, pack_dir: Seq<char>, base_url: Seq<char>) -> PlanV {
    match url_resolved(base_url, with_slash(required_dir())) {
        None => stopped(with_slash(required_dir())),
        Some(ru) => and_next(
            diffs_plan(d.required_changes, join_spec(pack_dir, required_dir()), ru),
            match url_resolved(base_url, with_slash(optional_dir())) {
                None => stopped(with_slash(optional_dir())),
                Some(ou) => diffs_plan(d.optional_changes, join_spec(pack_dir, optional_dir()), ou),
            },
        ),
    }
}

proof fn lemma_created_all_stops(v: Seq<PartV>, k: int, dir: Seq<char>, url: Seq<char>)
    requires
        0 <= k <= v.len(),
        created_all_plan(v.take(k), dir, url).1 is Some,
    ensures
        created_all_plan(v, dir, url) == created_all_plan(v.take(k), dir, url),
    decreases v.len() - k,
{
    if k < v.len() {
        assert(v.take(k + 1).drop_last() =~= v.take(k));
        lemma_created_all_stops(v, k + 1, dir, url);
    } else {
        assert(v.take(k) =~= v);
    }
}

proof fn lemma_diffs_stops(v: Seq<DiffV>, k: int, dir: Seq<char>, url: Seq<char>)
    requires
        0 <= k <= v.len(),
        diffs_plan(v.take(k), dir, url).1 is Some,
    ensures
        diffs_plan(v, dir, url) == diffs_plan(v.take(k), dir, url),
    decreases v.len() - k,
{
    if k < v.len() {
        assert(v.take(k + 1).drop_last() =~= v.take(k));
        lemma_diffs_stops(v, k + 1, dir, url);
    } else {
        assert(v.take(k) =~= v);
    }
}

/// `name` followed by `/`.
fn with_slash_exec(name: &String) -> (r: String)
    ensures
        r@ == with_slash(name@),
{
    let mut r = name.clone();
    push_char(&mut r, '/');
    r
}

/// Appends step `s` to `steps`.
fn push_step<'a>(steps: &mut Vec<DownloadStep<'a>>, s: DownloadStep<'a>)
    ensures
        steps_view(final(steps)@) == steps_view(old(steps)@) + seq![step_view(s)],
{
    steps.push(s);
    assert(steps_view(steps@) =~= steps_view(old(steps)@) + seq![step_view(s)]);
}

/// Appends to `steps` the plan creating part `p` (see [`created_plan`]);
/// returns the reference that stopped it, if any.
fn plan_created<'a>(p: &PackPart, dir: &str, url: &str, steps: &mut Vec<DownloadStep<'a>>) -> (failed:
    Option<String>)
    ensures
        steps_view(final(steps)@) == steps_view(old(steps)@) + created_plan(
            part_view(*p),
            dir@,
            url@,
        ).0,
        opt_view(failed) == created_plan(part_view(*p), dir@, url@).1,
    decreases p,
{
    match p {
        PackPart::Folder(f) => {
            let reference = with_slash_exec(&f.name);
            match url_join(url, reference.as_str()) {
                Ok(u) => {
                    let sub = join_path(dir, f.name.as_str());
                    let ghost before = steps_view(steps@);
                    push_step(steps, DownloadStep::CreateDir { path: sub.clone() });
                    let r = plan_created_all(&f.children, sub.as_str(), u.as_str(), steps);
                    proof {
                        assert(steps_view(steps@) =~= before + (seq![StepV::CreateDir(sub@)] + created_all_plan(parts_view(f.children@), sub@, u@).0));
                    }
                    r
                },
                Err(_) => {
                    assert(steps_view(steps@) =~= steps_view(old(steps)@) + Seq::<StepV>::empty());
                    Some(reference)
                },
            }
        },
        PackPart::File(file) => {
            let name = match file {
                File::Generic(g) => &g.name,
                File::PBO(b) => &b.name,
            };
            match url_join(url, name.as_str()) {
                Ok(u) => {
                    push_step(steps, DownloadStep::Download { path: join_path(dir, name.as_str()), url: u });
                    None
                },
                Err(_) => {
                    assert(steps_view(steps@) =~= steps_view(old(steps)@) + Seq::<StepV>::empty());
                    Some(name.clone())
                },
            }
        },
    }
}

/// Appends to `steps` the plans creating each of `ps` in order, stopping at
/// the first reference that cannot be resolved, which it returns.
fn plan_created_all<'a>(ps: &Vec<PackPart>, dir: &str, url: &str, steps: &mut Vec<DownloadStep<'a>>) -> (failed:
    Option<String>)
    ensures
        steps_view(final(steps)@) == steps_view(old(steps)@) + created_all_plan(
            parts_view(ps@),
            dir@,
            url@,
        ).0,
        opt_view(failed) == created_all_plan(parts_view(ps@), dir@, url@).1,
    decreases ps,
{
    proof {
        lemma_parts_view(ps@);
    }
    let ghost v = parts_view(ps@);
    let ghost start = steps_view(steps@);
    proof {
        assert(v.take(0) =~= Seq::<PartV>::empty());
        assert(start + Seq::<StepV>::empty() =~= start);
    }
    let mut i: usize = 0;
    while i < ps.len()
        invariant
            i <= ps.len(),
            v == parts_view(ps@),
            start == steps_view(old(steps)@),
            v.len() == ps.len(),
            forall|j: int| 0 <= j < ps.len() ==> #[trigger] v[j] == part_view(ps@[j]),
            created_all_plan(v.take(i as int), dir@, url@).1 is None,
            steps_view(steps@) == start + created_all_plan(v.take(i as int), dir@, url@).0,
        decreases ps.len() - i,
    {
        let ghost before = steps_view(steps@);
        proof {
            assert(v.take(i + 1).drop_last() =~= v.take(i as int));
            assert(v.take(i + 1)[i as int] == v[i as int]);
        }
        assert(decreases_to!(ps => ps@[i as int]));
        let f = plan_created(&ps[i], dir, url, steps);
        proof {
            assert(steps_view(steps@) =~= start + created_all_plan(v.take(i + 1), dir@, url@).0);
        }
        if f.is_some() {
            proof {
                lemma_created_all_stops(v, i + 1, dir@, url@);
            }
            return f;
        }
        i = i + 1;
    }
    proof {
        assert(v.take(ps.len() as int) =~= v);
    }
    None
}

/// Appends to `steps` the plan for difference `d` (see [`diff_plan`]);
/// returns the reference that stopped it, if any.
fn plan_diff<'a>(d: &'a PartDiff, dir: &str, url: &str, steps: &mut Vec<DownloadStep<'a>>) -> (failed:
    Option<String>)
    ensures
        steps_view(final(steps)@) == steps_view(old(steps)@) + diff_plan(diff_view(*d), dir@, url@).0,
        opt_view(failed) == diff_plan(diff_view(*d), dir@, url@).1,
    decreases d,
{
    match d {
        PartDiff::Created(p) => plan_created(p, dir, url, steps),
        PartDiff::Deleted(n) => {
            push_step(steps, DownloadStep::DeleteFile { path: join_path(dir, n.as_str()) });
            None
        },
        PartDiff::Modified(PartModification::File(FileModification::GenericFile(g))) => {
            match url_join(url, g.name.as_str()) {
                Ok(u) => {
                    push_step(steps, DownloadStep::Download { path: join_path(dir, g.name.as_str()), url: u });
                    None
                },
                Err(_) => {
                    assert(steps_view(steps@) =~= steps_view(old(steps)@) + Seq::<StepV>::empty());
                    Some(g.name.clone())
                },
            }
        },
        PartDiff::Modified(PartModification::File(FileModification::PBO(m))) => {
            match url_join(url, m.name.as_str()) {
                Ok(u) => {
                    push_step(
                        steps,
                        DownloadStep::PatchPbo { path: join_path(dir, m.name.as_str()), url: u, modification: m },
                    );
                    None
                },
                Err(_) => {
                    assert(steps_view(steps@) =~= steps_view(old(steps)@) + Seq::<StepV>::empty());
                    Some(m.name.clone())
                },
            }
        },
        PartDiff::Modified(PartModification::Folder(f)) => {
            let reference = with_slash_exec(&f.name);
            match url_join(url, reference.as_str()) {
                Ok(u) => {
                    let sub = join_path(dir, f.name.as_str());
                    plan_diffs(&f.changes, sub.as_str(), u.as_str(), steps)
                },
                Err(_) => {
                    assert(steps_view(steps@) =~= steps_view(old(steps)@) + Seq::<StepV>::empty());
                    Some(reference)
                },
            }
        },
    }
}

/// Appends to `steps` the plans for each of `ds` in order, stopping at the
/// first reference that cannot be resolved, which it returns.
fn plan_diffs<'a>(ds: &'a Vec<PartDiff>, dir: &str, url: &str, steps: &mut Vec<DownloadStep<'a>>) -> (failed:
    Option<String>)
    ensures
        steps_view(final(steps)@) == steps_view(old(steps)@) + diffs_plan(diffs_view(ds@), dir@, url@).0,
        opt_view(failed) == diffs_plan(diffs_view(ds@), dir@, url@).1,
    decreases ds,
{
    proof {
        lemma_diffs_view(ds@);
    }
    let ghost v = diffs_view(ds@);
    let ghost start = steps_view(steps@);
    proof {
        assert(v.take(0) =~= Seq::<DiffV>::empty());
        assert(start + Seq::<StepV>::empty() =~= start);
    }
    let mut i: usize = 0;
    while i < ds.len()
        invariant
            i <= ds.len(),
            v == diffs_view(ds@),
            start == steps_view(old(steps)@),
            v.len() == ds.len(),
            forall|j: int| 0 <= j < ds.len() ==> #[trigger] v[j] == diff_view(ds@[j]),
            diffs_plan(v.take(i as int), dir@, url@).1 is None,
            steps_view(steps@) == start + diffs_plan(v.take(i as int), dir@, url@).0,
        decreases ds.len() - i,
    {
        proof {
            assert(v.take(i + 1).drop_last() =~= v.take(i as int));
            assert(v.take(i + 1)[i as int] == v[i as int]);
        }
        assert(decreases_to!(ds => ds@[i as int]));
        let f = plan_diff(&ds[i], dir, url, steps);
        proof {
            assert(steps_view(steps@) =~= start + diffs_plan(v.take(i + 1), dir@, url@).0);
        }
        if f.is_some() {
            proof {
                lemma_diffs_stops(v, i + 1, dir@, url@);
            }
            return f;
        }
        i = i + 1;
    }
    proof {
        assert(v.take(ds.len() as int) =~= v);
    }
    None
}

/// `required`.
fn required_dir_name() -> (r: String)
    ensures
        r@ == required_dir(),
{
    let r = crate::text::to_owned_string("required");
    proof {
        reveal_strlit("required");
        assert(r@ =~= required_dir());
    }
    r
}

/// `optional`.
fn optional_dir_name() -> (r: String)
    ensures
        r@ == optional_dir(),
{
    let r = crate::text::to_owned_string("optional");
    proof {
        reveal_strlit("optional");
        assert(r@ =~= optional_dir());
    }
    r
}

impl PackDiff {
    /// The steps that bring the copy of this diff's pack at `pack_dir` in line
    /// with it, fetching from the pack's base URL `base_url`: the required
    /// changes in `required/`, then the optional ones in `optional/`, each in
    /// the diff's order. Created folders are made before their contents; a
    /// deleted name removes a file only. Planning stops at the first URL
    /// reference that cannot be resolved: the steps before it are kept, and
    /// the reference is reported.
    pub fn download_plan<'a>(&'a self, pack_dir: &str, base_url: &str) -> (r: DownloadPlan<'a>)
        ensures
            (steps_view(r.steps@), opt_view(r.failed)) == pack_plan(
                pack_diff_view(*self),
                pack_dir@,
                base_url@,
            ),
    {
        let mut steps: Vec<DownloadStep<'a>> = Vec::new();
        let required = required_dir_name();
        let required_ref = with_slash_exec(&required);
        let required_url = match url_join(base_url, required_ref.as_str()) {
            Ok(u) => u,
            Err(_) => {
                assert(steps_view(steps@) =~= Seq::<StepV>::empty());
                return DownloadPlan { steps, failed: Some(required_ref) };
            },
        };
        let required_path = join_path(pack_dir, required.as_str());
        let failed = plan_diffs(&self.required_changes, required_path.as_str(), required_url.as_str(), &mut steps);
        if failed.is_some() {
            assert(steps_view(steps@) =~= Seq::<StepV>::empty() + diffs_plan(
                diffs_view(self.required_changes@),
                required_path@,
                required_url@,
            ).0);
            return DownloadPlan { steps, failed };
        }
        let ghost after_required = steps_view(steps@);
        let optional = optional_dir_name();
        let optional_ref = with_slash_exec(&optional);
        let optional_url = match url_join(base_url, optional_ref.as_str()) {
            Ok(u) => u,
            Err(_) => {
                assert(after_required =~= Seq::<StepV>::empty() + diffs_plan(
                    diffs_view(self.required_changes@),
                    required_path@,
                    required_url@,
                ).0);
                assert(steps_view(steps@) =~= after_required + Seq::<StepV>::empty());
                return DownloadPlan { steps, failed: Some(optional_ref) };
            },
        };
        let optional_path = join_path(pack_dir, optional.as_str());
        let failed = plan_diffs(&self.optional_changes, optional_path.as_str(), optional_url.as_str(), &mut steps);
        proof {
            assert(after_required =~= Seq::<StepV>::empty() + diffs_plan(
                diffs_view(self.required_changes@),
                required_path@,
                required_url@,
            ).0);
        }
        DownloadPlan { steps, failed }
    }
}

/// A pack that did not change needs no step: the plan for the diff of a
/// manifest with itself holds no step, whatever the URLs resolve to.
pub proof fn lemma_unchanged_pack_downloads_nothing(m: PackManifest, pack_dir: Seq<char>, base_url: Seq<char>)
    ensures
        pack_plan(manifest_diff_spec(m, m), pack_dir, base_url).0 == Seq::<StepV>::empty(),
{
    lemma_manifest_diff_self_empty(m);
    let e = Seq::<DiffV>::empty();
    assert(forall|d: Seq<char>, u: Seq<char>| #[trigger] diffs_plan(e, d, u) == (Seq::<StepV>::empty(), None::<Seq<char>>));
    assert(Seq::<StepV>::empty() + Seq::<StepV>::empty() =~= Seq::<StepV>::empty());
}

/// The URL `reference` resolves to against the base URL `base` (see
/// [`url_resolved`]), or none where it cannot be formed.
pub fn resolve_url(base: &str, reference: &str) -> (r: Option<String>)
    ensures
        match r {
            Some(u) => url_resolved(base@, reference@) == Some(u@),
            None => url_resolved(base@, reference@) is None,
        },
{
    match url_join(base, reference) {
        Ok(u) => Some(u),
        Err(_) => None,
    }
}

} // verus!
