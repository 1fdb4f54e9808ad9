//! Differences between two versions of a pack's tree: what to create, what to
//! delete and how to modify what both versions hold.
use vstd::prelude::*;

use crate::manifest::{
    bytes_eq, checksum_of, copy_bytes, copy_pbo_parts, lemma_parts_view, name_of, parts_view,
    part_view, pbo_part_view, pbo_parts_view, File, Folder, GenericFile, PBOFile, PBOPart,
    PackManifest, PackPart, PartV, PboPartV,
};

verus! {

/// A change to a generic file: fetch it whole.
#[derive(Debug)]
pub struct GenericFileModification {
    pub name: String,
    pub target_checksum: Vec<u8>,
    pub new_length: u64,
}

/// A change to a PBO: its new layout and the checksums of the inner files to
/// fetch; the others are taken from the old archive.
#[derive(Debug)]
pub struct PBOModification {
    pub name: String,
    pub target_checksum: Vec<u8>,
    pub new_order: Vec<PBOPart>,
    pub required_parts: Vec<Vec<u8>>,
    pub blob_offset: u64,
}

/// A change to a file.
#[derive(Debug)]
pub enum FileModification {
    GenericFile(GenericFileModification),
    PBO(PBOModification),
}

/// A change inside a folder.
#[derive(Debug)]
pub struct FolderModification {
    pub name: String,
    pub changes: Vec<PartDiff>,
}

/// A change to a part that both versions hold.
#[derive(Debug)]
pub enum PartModification {
    File(FileModification),
    Folder(FolderModification),
}

/// One difference between two versions of a list of parts.
#[derive(Debug)]
pub enum PartDiff {
    /// A part of the new version to create as a whole.
    Created(PackPart),
    /// The name of a part of the old version to delete.
    Deleted(String),
    /// A part both versions hold, changed.
    Modified(PartModification),
}

/// The differences between two manifests of a pack, for required and
/// optional addons.
#[derive(Debug)]
pub struct PackDiff {
    /// The pack the differences lead to.
    pub pack_name: String,
    pub required_changes: Vec<PartDiff>,
    pub optional_changes: Vec<PartDiff>,
}

/// Model of a [`PartDiff`].
pub enum DiffV {
    Created(PartV),
    Deleted(Seq<char>),
    ModifiedGeneric { name: Seq<char>, target_checksum: Seq<u8>, new_length: u64 },
    ModifiedPbo {
        name: Seq<char>,
        target_checksum: Seq<u8>,
        new_order: Seq<PboPartV>,
        required_parts: Seq<Seq<u8>>,
        blob_offset: u64,
    },
    ModifiedFolder { name: Seq<char>, changes: Seq<DiffV> },
}

/// The contents of a sequence of byte vectors.
pub open spec fn bytes_seqs(s: Seq<Vec<u8>>) -> Seq<Seq<u8>> {
    Seq::new(s.len(), |i: int| s[i]@)
}

/// The model of a difference.
pub open spec fn diff_view(d: PartDiff) -> DiffV
    decreases d,
{
    match d {
        PartDiff::Created(p) => DiffV::Created(part_view(p)),
        PartDiff::Deleted(n) => DiffV::Deleted(n@),
        PartDiff::Modified(PartModification::File(FileModification::GenericFile(g))) => {
            DiffV::ModifiedGeneric {
                name: g.name@,
                target_checksum: g.target_checksum@,
                new_length: g.new_length,
            }
        },
        PartDiff::Modified(PartModification::File(FileModification::PBO(m))) => DiffV::ModifiedPbo {
            name: m.name@,
            target_checksum: m.target_checksum@,
            new_order: pbo_parts_view(m.new_order@),
            required_parts: bytes_seqs(m.required_parts@),
            blob_offset: m.blob_offset,
        },
        PartDiff::Modified(PartModification::Folder(f)) => DiffV::ModifiedFolder {
            name: f.name@,
            changes: diffs_view(f.changes@),
        },
    }
}

/// The models of a sequence of differences.
pub open spec fn diffs_view(s: Seq<PartDiff>) -> Seq<DiffV>
    decreases s,
{
    if s.len() == 0 {
        Seq::empty()
    } else {
        seq![diff_view(s[0])] + diffs_view(s.drop_first())
    }
}

/// Whether some part of `s` is named `n`.
pub open spec fn has_name(s: Seq<PartV>, n: Seq<char>) -> bool {
    exists|i: int| 0 <= i < s.len() && name_of(s[i]) == n
}

/// The last part of `s` named `n`: when names repeat, the later part wins.
pub open spec fn last_named(s: Seq<PartV>, n: Seq<char>) -> PartV
    decreases s.len(),
{
    if s.len() == 0 {
        arbitrary()
    } else if name_of(s.last()) == n {
        s.last()
    } else {
        last_named(s.drop_last(), n)
    }
}

/// Parts of the new version `r` whose names the old version `l` lacks, each
/// taken once (its last occurrence), in order: created.
pub open spec fn added(l: Seq<PartV>, r: Seq<PartV>) -> Seq<DiffV>
    decreases r.len(),
{
    if r.len() == 0 {
        Seq::empty()
    } else {
        let rest = added(l, r.drop_first());
        if !has_name(r.drop_first(), name_of(r[0])) && !has_name(l, name_of(r[0])) {
            seq![DiffV::Created(r[0])] + rest
        } else {
            rest
        }
    }
}

/// Names of parts of the old version `l` that the new version `r` lacks, each
/// once, in order: deleted.
pub open spec fn removed(l: Seq<PartV>, r: Seq<PartV>) -> Seq<DiffV>
    decreases l.len(),
{
    if l.len() == 0 {
        Seq::empty()
    } else {
        let rest = removed(l.drop_first(), r);
        if !has_name(l.drop_first(), name_of(l[0])) && !has_name(r, name_of(l[0])) {
            seq![DiffV::Deleted(name_of(l[0]))] + rest
        } else {
            rest
        }
    }
}

/// Whether some PBO part has checksum `c`.
pub open spec fn has_checksum(parts: Seq<PboPartV>, c: Seq<u8>) -> bool {
    exists|i: int| 0 <= i < parts.len() && parts[i].checksum == c
}

/// The checksums of the new parts that no old part has, in order: the parts
/// of a PBO that must be fetched.
pub open spec fn required_parts_spec(old: Seq<PboPartV>, new: Seq<PboPartV>) -> Seq<Seq<u8>>
    decreases new.len(),
{
    if new.len() == 0 {
        Seq::empty()
    } else {
        let before = required_parts_spec(old, new.drop_last());
        if has_checksum(old, new.last().checksum) {
            before
        } else {
            before.push(new.last().checksum)
        }
    }
}

/// The difference between two versions of a part with the same name: none
/// when their checksums agree; a modification when both are generic files,
/// both PBOs, or both folders; otherwise the new part is created anew.
pub open spec fn diff_part_spec(l: PartV, r: PartV) -> Option<DiffV>
    decreases r, 2int,
{
    if checksum_of(l) == checksum_of(r) {
        None
    } else {
        match (l, r) {
            (PartV::Generic { .. }, PartV::Generic { name, checksum, length }) => Some(
                DiffV::ModifiedGeneric { name, target_checksum: checksum, new_length: length },
            ),
            (
                PartV::Pbo { parts: old_parts, .. },
                PartV::Pbo { name, checksum, parts, blob_offset },
            ) => Some(
                DiffV::ModifiedPbo {
                    name,
                    target_checksum: checksum,
                    new_order: parts,
                    required_parts: required_parts_spec(old_parts, parts),
                    blob_offset,
                },
            ),
            (PartV::Folder { children: old_children, .. }, PartV::Folder { name, children, .. }) => {
                Some(
                    DiffV::ModifiedFolder {
                        name,
                        changes: diff_parts_spec(old_children, children),
                    },
                )
            },
            _ => Some(DiffV::Created(r)),
        }
    }
}

/// Differences for the parts whose names both versions hold (each name once,
/// its last occurrence), in the order of the new version.
pub open spec fn changes(l: Seq<PartV>, r: Seq<PartV>) -> Seq<DiffV>
    decreases r, 0int,
{
    if r.len() == 0 {
        Seq::empty()
    } else {
        let rest = changes(l, r.drop_first());
        if !has_name(r.drop_first(), name_of(r[0])) && has_name(l, name_of(r[0])) {
            match diff_part_spec(last_named(l, name_of(r[0])), r[0]) {
                Some(d) => seq![d] + rest,
                None => rest,
            }
        } else {
            rest
        }
    }
}

/// The differences from the old list of parts `l` to the new list `r`: the
/// created parts, then the deleted names, then the modifications. Parts are
/// matched by name; when a name repeats within a list, its last part counts.
pub open spec fn diff_parts_spec(l: Seq<PartV>, r: Seq<PartV>) -> Seq<DiffV>
    decreases r, 1int,
{
    added(l, r) + removed(l, r) + changes(l, r)
}

proof fn lemma_last_named(s: Seq<PartV>, n: Seq<char>, k: int)
    requires
        0 <= k < s.len(),
        name_of(s[k]) == n,
        forall|j: int| k < j < s.len() ==> name_of(s[j]) != n,
    ensures
        last_named(s, n) == s[k],
    decreases s.len(),
{
    if k < s.len() - 1 {
        lemma_last_named(s.drop_last(), n, k);
    }
}

/// `diffs_view` maps every element.
pub proof fn lemma_diffs_view(s: Seq<PartDiff>)
    ensures
        diffs_view(s).len() == s.len(),
        forall|i: int| 0 <= i < s.len() ==> #[trigger] diffs_view(s)[i] == diff_view(s[i]),
    decreases s.len(),
{
    if s.len() > 0 {
        lemma_diffs_view(s.drop_first());
        assert forall|i: int| 0 <= i < s.len() implies #[trigger] diffs_view(s)[i] == diff_view(
            s[i],
        ) by {
            if i > 0 {
                assert(diffs_view(s)[i] == diffs_view(s.drop_first())[i - 1]);
            }
        }
    }
}

proof fn lemma_diffs_view_push(s: Seq<PartDiff>, d: PartDiff)
    ensures
        diffs_view(s.push(d)) == diffs_view(s).push(diff_view(d)),
{
    lemma_diffs_view(s);
    lemma_diffs_view(s.push(d));
    assert(diffs_view(s.push(d)) =~= diffs_view(s).push(diff_view(d)));
}

/// Whether a part of `v` at position `start` or later is named `name`.
fn name_in_from(v: &Vec<PackPart>, start: usize, name: &String) -> (b: bool)
    requires
        start <= v.len(),
    ensures
        b == has_name(parts_view(v@).skip(start as int), name@),
{
    proof {
        lemma_parts_view(v@);
    }
    let ghost s = parts_view(v@).skip(start as int);
    let mut i = start;
    while i < v.len()
        invariant
            start <= i <= v.len(),
            s == parts_view(v@).skip(start as int),
            parts_view(v@).len() == v.len(),
            forall|j: int| 0 <= j < v.len() ==> #[trigger] parts_view(v@)[j] == part_view(v@[j]),
            forall|j: int| 0 <= j < i - start ==> name_of(s[j]) != name@,
        decreases v.len() - i,
    {
        if *v[i].get_name() == *name {
            assert(name_of(s[i - start]) == name@);
            return true;
        }
        i = i + 1;
    }
    false
}

/// The position of the last part of `v` named `name`, if any.
fn find_last_named(v: &Vec<PackPart>, name: &String) -> (r: Option<usize>)
    ensures
        r matches Some(k) ==> k < v.len() && has_name(parts_view(v@), name@) && part_view(v@[k as int])
            == last_named(parts_view(v@), name@),
        r is None ==> !has_name(parts_view(v@), name@),
{
    proof {
        lemma_parts_view(v@);
    }
    let ghost s = parts_view(v@);
    let mut i = v.len();
    while i > 0
        invariant
            i <= v.len(),
            s == parts_view(v@),
            s.len() == v.len(),
            forall|j: int| 0 <= j < v.len() ==> #[trigger] s[j] == part_view(v@[j]),
            forall|j: int| i <= j < v.len() ==> name_of(s[j]) != name@,
        decreases i,
    {
        i = i - 1;
        if *v[i].get_name() == *name {
            proof {
                lemma_last_named(s, name@, i as int);
            }
            return Some(i);
        }
    }
    None
}

/// Whether some part of `parts` has checksum `c`.
fn has_checksum_exec(parts: &Vec<PBOPart>, c: &Vec<u8>) -> (b: bool)
    ensures
        b == has_checksum(pbo_parts_view(parts@), c@),
{
    let mut i: usize = 0;
    while i < parts.len()
        invariant
            i <= parts.len(),
            forall|j: int| 0 <= j < i ==> parts@[j].checksum@ != c@,
        decreases parts.len() - i,
    {
        if bytes_eq(&parts[i].checksum, c) {
            assert(pbo_parts_view(parts@)[i as int].checksum == c@);
            return true;
        }
        i = i + 1;
    }
    false
}

/// The checksums of the parts of `new` that `old` does not have.
fn required_parts(old: &Vec<PBOPart>, new: &Vec<PBOPart>) -> (r: Vec<Vec<u8>>)
    ensures
        bytes_seqs(r@) == required_parts_spec(pbo_parts_view(old@), pbo_parts_view(new@)),
{
    let ghost o = pbo_parts_view(old@);
    let mut r: Vec<Vec<u8>> = Vec::new();
    let mut i: usize = 0;
    while i < new.len()
        invariant
            i <= new.len(),
            o == pbo_parts_view(old@),
            bytes_seqs(r@) == required_parts_spec(o, pbo_parts_view(new@).take(i as int)),
        decreases new.len() - i,
    {
        let ghost t = pbo_parts_view(new@).take(i + 1);
        proof {
            assert(t.drop_last() =~= pbo_parts_view(new@).take(i as int));
            assert(t.last() == pbo_part_view(new@[i as int]));
        }
        if !has_checksum_exec(old, &new[i].checksum) {
            let ghost before = r@;
            r.push(copy_bytes(&new[i].checksum));
            proof {
                assert(bytes_seqs(r@) =~= bytes_seqs(before).push(new@[i as int].checksum@));
            }
        }
        i = i + 1;
    }
    proof {
        assert(pbo_parts_view(new@).take(new.len() as int) =~= pbo_parts_view(new@));
    }
    r
}

/// The difference between two generic files, two PBOs, or a file and a file
/// of the other kind (which is created anew).
fn diff_file(left: &File, right: &File) -> (r: PartDiff)
    requires
        checksum_of(part_view(PackPart::File(*left))) != checksum_of(
            part_view(PackPart::File(*right)),
        ),
    ensures
        diff_part_spec(part_view(PackPart::File(*left)), part_view(PackPart::File(*right)))
            == Some(diff_view(r)),
{
    match (left, right) {
        (File::Generic(_), File::Generic(g)) => PartDiff::Modified(
            PartModification::File(
                FileModification::GenericFile(
                    GenericFileModification {
                        name: g.name.clone(),
                        target_checksum: copy_bytes(&g.checksum),
                        new_length: g.length,
                    },
                ),
            ),
        ),
        (File::PBO(l), File::PBO(f)) => {
            let required = required_parts(&l.parts, &f.parts);
            PartDiff::Modified(
                PartModification::File(
                    FileModification::PBO(
                        PBOModification {
                            name: f.name.clone(),
                            target_checksum: copy_bytes(&f.checksum),
                            new_order: copy_pbo_parts(&f.parts),
                            required_parts: required,
                            blob_offset: f.blob_offset,
                        },
                    ),
                ),
            )
        },
        (File::Generic(_), File::PBO(_)) => PartDiff::Created(PackPart::File(copy_file(right))),
        (File::PBO(_), File::Generic(_)) => PartDiff::Created(PackPart::File(copy_file(right))),
    }
}

/// A copy of a file.
fn copy_file(f: &File) -> (r: File)
    ensures
        part_view(PackPart::File(r)) == part_view(PackPart::File(*f)),
{
    match f {
        File::Generic(g) => File::Generic(
            GenericFile { name: g.name.clone(), checksum: copy_bytes(&g.checksum), length: g.length },
        ),
        File::PBO(p) => File::PBO(
            PBOFile {
                name: p.name.clone(),
                checksum: copy_bytes(&p.checksum),
                parts: copy_pbo_parts(&p.parts),
                blob_offset: p.blob_offset,
            },
        ),
    }
}

/// The difference between two versions of a folder: the differences of their
/// children.
fn diff_folder(left: &Folder, right: &Folder) -> (r: PartDiff)
    ensures
        diff_view(r) == (DiffV::ModifiedFolder {
            name: right.name@,
            changes: diff_parts_spec(parts_view(left.children@), parts_view(right.children@)),
        }),
    decreases right, 3int,
{
    let changes = diff_parts(&left.children, &right.children);
    PartDiff::Modified(PartModification::Folder(FolderModification { name: right.name.clone(), changes }))
}

/// The difference between two versions of a part with the same name (see
/// [`diff_part_spec`]).
fn diff_part(left: &PackPart, right: &PackPart) -> (r: Option<PartDiff>)
    ensures
        diff_part_spec(part_view(*left), part_view(*right)) == match r {
            Some(d) => Some(diff_view(d)),
            None => None::<DiffV>,
        },
    decreases right, 2int,
{
    if bytes_eq(left.get_checksum(), right.get_checksum()) {
        return None;
    }
    match (left, right) {
        (PackPart::File(l), PackPart::File(f)) => Some(diff_file(l, f)),
        (PackPart::Folder(l), PackPart::Folder(f)) => Some(diff_folder(l, f)),
        (PackPart::File(_), PackPart::Folder(_)) => Some(PartDiff::Created(right.copy())),
        (PackPart::Folder(_), PackPart::File(_)) => Some(PartDiff::Created(right.copy())),
    }
}

/// The differences from the old list of parts `left` to the new list `right`
/// (see [`diff_parts_spec`]): parts are matched by name; new names are
/// created, vanished names deleted, and parts both lists name are compared.
pub fn diff_parts(left: &Vec<PackPart>, right: &Vec<PackPart>) -> (res: Vec<PartDiff>)
    ensures
        diffs_view(res@) == diff_parts_spec(parts_view(left@), parts_view(right@)),
    decreases right, 1int,
{
    let ghost l = parts_view(left@);
    let ghost r = parts_view(right@);
    proof {
        lemma_parts_view(left@);
        lemma_parts_view(right@);
        assert(r.skip(0) =~= r);
        assert(l.skip(0) =~= l);
    }
    let mut res: Vec<PartDiff> = Vec::new();
    // Parts of the new version whose names the old one lacks are created.
    let mut i: usize = 0;
    while i < right.len()
        invariant
            l == parts_view(left@),
            r == parts_view(right@),
            r.len() == right.len(),
            l.len() == left.len(),
            forall|j: int| 0 <= j < right.len() ==> #[trigger] r[j] == part_view(right@[j]),
            i <= right.len(),
            diffs_view(res@) + added(l, r.skip(i as int)) == added(l, r),
        decreases right.len() - i,
    {
        let ghost rest = r.skip(i as int);
        proof {
            assert(rest.drop_first() =~= r.skip(i + 1));
            assert(rest[0] == part_view(right@[i as int]));
            assert(l.skip(0) =~= l);
        }
        let name = right[i].get_name();
        if !name_in_from(right, i + 1, name) && !name_in_from(left, 0, name) {
            let ghost before = res@;
            res.push(PartDiff::Created(right[i].copy()));
            proof {
                lemma_diffs_view_push(before, res@.last());
                assert(diffs_view(before) + (seq![DiffV::Created(rest[0])] + added(l, r.skip(i + 1)))
                    =~= diffs_view(res@) + added(l, r.skip(i + 1)));
            }
        }
        i = i + 1;
    }
    proof {
        assert(r.skip(right.len() as int) =~= Seq::<PartV>::empty());
        assert(diffs_view(res@) + Seq::<DiffV>::empty() =~= diffs_view(res@));
    }
    let ghost after_added = diffs_view(res@);
    // Names of the old version that the new one lacks are deleted.
    let mut i: usize = 0;
    while i < left.len()
        invariant
            l == parts_view(left@),
            r == parts_view(right@),
            r.len() == right.len(),
            l.len() == left.len(),
            forall|j: int| 0 <= j < left.len() ==> #[trigger] l[j] == part_view(left@[j]),
            i <= left.len(),
            after_added == added(l, r),
            diffs_view(res@) + removed(l.skip(i as int), r) == added(l, r) + removed(l, r),
        decreases left.len() - i,
    {
        let ghost rest = l.skip(i as int);
        proof {
            assert(rest.drop_first() =~= l.skip(i + 1));
            assert(rest[0] == part_view(left@[i as int]));
            assert(r.skip(0) =~= r);
        }
        let name = left[i].get_name();
        if !name_in_from(left, i + 1, name) && !name_in_from(right, 0, name) {
            let ghost before = res@;
            res.push(PartDiff::Deleted(name.clone()));
            proof {
                lemma_diffs_view_push(before, res@.last());
                assert(diffs_view(before) + (seq![DiffV::Deleted(name_of(rest[0]))] + removed(
                    l.skip(i + 1),
                    r,
                )) =~= diffs_view(res@) + removed(l.skip(i + 1), r));
            }
        }
        i = i + 1;
    }
    proof {
        assert(l.skip(left.len() as int) =~= Seq::<PartV>::empty());
        assert(diffs_view(res@) + Seq::<DiffV>::empty() =~= diffs_view(res@));
    }
    // Names both versions hold are compared.
    let mut i: usize = 0;
    while i < right.len()
        invariant
            l == parts_view(left@),
            r == parts_view(right@),
            r.len() == right.len(),
            l.len() == left.len(),
            forall|j: int| 0 <= j < right.len() ==> #[trigger] r[j] == part_view(right@[j]),
            i <= right.len(),
            diffs_view(res@) + changes(l, r.skip(i as int)) == added(l, r) + removed(l, r)
                + changes(l, r),
        decreases right.len() - i,
    {
        let ghost rest = r.skip(i as int);
        proof {
            assert(rest.drop_first() =~= r.skip(i + 1));
            assert(rest[0] == part_view(right@[i as int]));
        }
        let name = right[i].get_name();
        if !name_in_from(right, i + 1, name) {
            match find_last_named(left, name) {
                Some(k) => {
                    assert(decreases_to!(right => right@[i as int]));
                    let d = diff_part(&left[k], &right[i]);
                    match d {
                        Some(d) => {
                            let ghost before = res@;
                            res.push(d);
                            proof {
                                lemma_diffs_view_push(before, res@.last());
                                assert(diffs_view(before) + (seq![diffs_view(res@).last()]
                                    + changes(l, r.skip(i + 1))) =~= diffs_view(res@) + changes(
                                    l,
                                    r.skip(i + 1),
                                ));
                            }
                        },
                        None => {},
                    }
                },
                None => {},
            }
        }
        i = i + 1;
    }
    proof {
        assert(r.skip(right.len() as int) =~= Seq::<PartV>::empty());
        assert(diffs_view(res@) + Seq::<DiffV>::empty() =~= diffs_view(res@));
        assert(added(l, r) + removed(l, r) + changes(l, r) == diff_parts_spec(l, r));
    }
    res
}

/// Model of a [`PackDiff`].
pub struct PackDiffV {
    pub pack_name: Seq<char>,
    pub required_changes: Seq<DiffV>,
    pub optional_changes: Seq<DiffV>,
}

/// The model of a pack diff.
pub open spec fn pack_diff_view(d: PackDiff) -> PackDiffV {
    PackDiffV {
        pack_name: d.pack_name@,
        required_changes: diffs_view(d.required_changes@),
        optional_changes: diffs_view(d.optional_changes@),
    }
}

/// The differences from manifest `old` to manifest `new`, named after `new`.
pub open spec fn manifest_diff_spec(old: PackManifest, new: PackManifest) -> PackDiffV {
    PackDiffV {
        pack_name: new.name@,
        required_changes: diff_parts_spec(
            parts_view(old.required_addons@),
            parts_view(new.required_addons@),
        ),
        optional_changes: diff_parts_spec(
            parts_view(old.optional_addons@),
            parts_view(new.optional_addons@),
        ),
    }
}

impl PackDiff {
    /// The pack the differences lead to.
    pub fn get_pack_name(&self) -> (r: &String)
        ensures
            r@ == self.pack_name@,
    {
        &self.pack_name
    }
}

impl PackManifest {
    /// The differences from this manifest (the old version) to `other` (the
    /// new one), for required and for optional addons separately, named
    /// after `other`.
    pub fn determine_pack_diff(&self, other: &Self) -> (r: PackDiff)
        ensures
            pack_diff_view(r) == manifest_diff_spec(*self, *other),
            diffs_view(r.required_changes@) == diff_parts_spec(
                parts_view(self.required_addons@),
                parts_view(other.required_addons@),
            ),
            diffs_view(r.optional_changes@) == diff_parts_spec(
                parts_view(self.optional_addons@),
                parts_view(other.optional_addons@),
            ),
    {
        let required_changes = diff_parts(&self.required_addons, &other.required_addons);
        let optional_changes = diff_parts(&self.optional_addons, &other.optional_addons);
        PackDiff { pack_name: other.name.clone(), required_changes, optional_changes }
    }
}

} // verus!

verus! {

proof fn lemma_added_none(l: Seq<PartV>, s: Seq<PartV>)
    requires
        forall|i: int| 0 <= i < s.len() ==> has_name(l, name_of(#[trigger] s[i])),
    ensures
        added(l, s) == Seq::<DiffV>::empty(),
    decreases s.len(),
{
    if s.len() > 0 {
        assert(has_name(l, name_of(s[0])));
        assert forall|i: int| 0 <= i < s.drop_first().len() implies has_name(
            l,
            name_of(#[trigger] s.drop_first()[i]),
        ) by {
            assert(s.drop_first()[i] == s[i + 1]);
        }
        lemma_added_none(l, s.drop_first());
    }
}

proof fn lemma_removed_none(s: Seq<PartV>, r: Seq<PartV>)
    requires
        forall|i: int| 0 <= i < s.len() ==> has_name(r, name_of(#[trigger] s[i])),
    ensures
        removed(s, r) == Seq::<DiffV>::empty(),
    decreases s.len(),
{
    if s.len() > 0 {
        assert(has_name(r, name_of(s[0])));
        assert forall|i: int| 0 <= i < s.drop_first().len() implies has_name(
            r,
            name_of(#[trigger] s.drop_first()[i]),
        ) by {
            assert(s.drop_first()[i] == s[i + 1]);
        }
        lemma_removed_none(s.drop_first(), r);
    }
}

proof fn lemma_changes_self_none(l: Seq<PartV>, k: int)
    requires
        0 <= k <= l.len(),
    ensures
        changes(l, l.skip(k)) == Seq::<DiffV>::empty(),
    decreases l.len() - k,
{
    let s = l.skip(k);
    if k < l.len() {
        assert(s.drop_first() =~= l.skip(k + 1));
        lemma_changes_self_none(l, k + 1);
        let n = name_of(s[0]);
        assert(s[0] == l[k]);
        if !has_name(s.drop_first(), n) {
            assert forall|j: int| k < j < l.len() implies name_of(l[j]) != n by {
                assert(l[j] == s.drop_first()[j - k - 1]);
            }
            lemma_last_named(l, n, k);
            assert(has_name(l, n));
            assert(diff_part_spec(last_named(l, n), s[0]) == None::<DiffV>);
        }
        assert(changes(l, s) == changes(l, s.drop_first()));
    } else {
        assert(s =~= Seq::<PartV>::empty());
    }
}

/// Comparing a list of parts with itself finds no difference.
pub proof fn lemma_diff_self_empty(l: Seq<PartV>)
    ensures
        diff_parts_spec(l, l) == Seq::<DiffV>::empty(),
{
    assert forall|i: int| 0 <= i < l.len() implies has_name(l, name_of(#[trigger] l[i])) by {}
    lemma_added_none(l, l);
    lemma_removed_none(l, l);
    assert(l.skip(0) =~= l);
    lemma_changes_self_none(l, 0);
    assert(Seq::<DiffV>::empty() + Seq::<DiffV>::empty() + Seq::<DiffV>::empty()
        =~= Seq::<DiffV>::empty());
}

/// A manifest compared with itself yields a diff without changes, so a pack
/// that did not change downloads nothing.
pub proof fn lemma_manifest_diff_self_empty(m: PackManifest)
    ensures
        manifest_diff_spec(m, m).required_changes == Seq::<DiffV>::empty(),
        manifest_diff_spec(m, m).optional_changes == Seq::<DiffV>::empty(),
{
    lemma_diff_self_empty(parts_view(m.required_addons@));
    lemma_diff_self_empty(parts_view(m.optional_addons@));
}

proof fn lemma_removed_names(l: Seq<PartV>, r: Seq<PartV>, d: DiffV)
    requires
        removed(l, r).contains(d),
    ensures
        d matches DiffV::Deleted(n) && has_name(l, n) && !has_name(r, n),
    decreases l.len(),
{
    if l.len() > 0 {
        let rest = removed(l.drop_first(), r);
        if !has_name(l.drop_first(), name_of(l[0])) && !has_name(r, name_of(l[0])) {
            if d != DiffV::Deleted(name_of(l[0])) {
                let k = choose|k: int| 0 <= k < removed(l, r).len() && removed(l, r)[k] == d;
                assert(rest[k - 1] == d);
                lemma_removed_names(l.drop_first(), r, d);
            }
        } else {
            lemma_removed_names(l.drop_first(), r, d);
        }
        if let DiffV::Deleted(n) = d {
            if has_name(l.drop_first(), n) {
                let j = choose|j: int| 0 <= j < l.drop_first().len() && name_of(l.drop_first()[j]) == n;
                assert(l[j + 1] == l.drop_first()[j]);
            }
        }
    }
}

proof fn lemma_added_names(l: Seq<PartV>, r: Seq<PartV>, d: DiffV)
    requires
        added(l, r).contains(d),
    ensures
        d matches DiffV::Created(p) && has_name(r, name_of(p)) && !has_name(l, name_of(p)),
    decreases r.len(),
{
    if r.len() > 0 {
        let rest = added(l, r.drop_first());
        if !has_name(r.drop_first(), name_of(r[0])) && !has_name(l, name_of(r[0])) {
            if d != DiffV::Created(r[0]) {
                let k = choose|k: int| 0 <= k < added(l, r).len() && added(l, r)[k] == d;
                assert(rest[k - 1] == d);
                lemma_added_names(l, r.drop_first(), d);
            }
        } else {
            lemma_added_names(l, r.drop_first(), d);
        }
        if let DiffV::Created(p) = d {
            if has_name(r.drop_first(), name_of(p)) {
                let j = choose|j: int| 0 <= j < r.drop_first().len() && name_of(r.drop_first()[j]) == name_of(p);
                assert(r[j + 1] == r.drop_first()[j]);
            }
        }
    }
}

/// The names a diff deletes are exactly old names the new version lacks, and
/// the parts created for new names are parts of the new version whose names
/// the old version lacks.
pub proof fn lemma_diff_created_and_deleted(l: Seq<PartV>, r: Seq<PartV>, n: Seq<char>, p: PartV)
    ensures
        diff_parts_spec(l, r).contains(DiffV::Deleted(n)) ==> has_name(l, n) && !has_name(r, n),
        added(l, r).contains(DiffV::Created(p)) ==> has_name(r, name_of(p)) && !has_name(l, name_of(p)),
{
    let d = diff_parts_spec(l, r);
    if d.contains(DiffV::Deleted(n)) {
        let k = choose|k: int| 0 <= k < d.len() && d[k] == DiffV::Deleted(n);
        let a = added(l, r);
        let b = removed(l, r);
        if k < a.len() {
            assert(a[k] == DiffV::Deleted(n));
            assert(a.contains(DiffV::Deleted(n)));
            lemma_added_names(l, r, DiffV::Deleted(n));
        } else if k < a.len() + b.len() {
            assert(b[k - a.len()] == DiffV::Deleted(n));
            assert(b.contains(DiffV::Deleted(n)));
            lemma_removed_names(l, r, DiffV::Deleted(n));
        } else {
            lemma_changes_not_deleted(l, r, n);
            assert(changes(l, r)[k - a.len() - b.len()] == DiffV::Deleted(n));
        }
    }
    if added(l, r).contains(DiffV::Created(p)) {
        lemma_added_names(l, r, DiffV::Created(p));
    }
}

proof fn lemma_changes_not_deleted(l: Seq<PartV>, r: Seq<PartV>, n: Seq<char>)
    ensures
        !changes(l, r).contains(DiffV::Deleted(n)),
    decreases r.len(),
{
    if r.len() > 0 {
        lemma_changes_not_deleted(l, r.drop_first(), n);
        let rest = changes(l, r.drop_first());
        let d0 = diff_part_spec(last_named(l, name_of(r[0])), r[0]);
        assert(d0 != Some(DiffV::Deleted(n)));
        if changes(l, r).contains(DiffV::Deleted(n)) {
            let k = choose|k: int| 0 <= k < changes(l, r).len() && changes(l, r)[k] == DiffV::Deleted(n);
            if changes(l, r).len() == rest.len() + 1 {
                if k > 0 {
                    assert(rest[k - 1] == DiffV::Deleted(n));
                }
            } else {
                assert(rest[k] == DiffV::Deleted(n));
            }
        }
    }
}

/// The last part named `n` in `s` is one at a position after which no part
/// has that name.
proof fn lemma_last_named_index(s: Seq<PartV>, n: Seq<char>) -> (k: int)
    requires
        has_name(s, n),
    ensures
        0 <= k < s.len(),
        name_of(s[k]) == n,
        forall|j: int| k < j < s.len() ==> name_of(s[j]) != n,
        last_named(s, n) == s[k],
    decreases s.len(),
{
    if name_of(s.last()) == n {
        s.len() - 1
    } else {
        let i = choose|i: int| 0 <= i < s.len() && name_of(s[i]) == n;
        assert(s.drop_last()[i] == s[i]);
        let k = lemma_last_named_index(s.drop_last(), n);
        assert forall|j: int| k < j < s.len() implies name_of(s[j]) != n by {
            if j < s.len() - 1 {
                assert(s[j] == s.drop_last()[j]);
            }
        }
        k
    }
}

/// Where a name occurs after the first part, the first part does not decide
/// which part of that name is last.
proof fn lemma_last_named_drop_first(s: Seq<PartV>, n: Seq<char>)
    requires
        s.len() > 0,
        has_name(s.drop_first(), n),
    ensures
        last_named(s, n) == last_named(s.drop_first(), n),
{
    let t = s.drop_first();
    let k = lemma_last_named_index(t, n);
    assert(s[k + 1] == t[k]);
    assert forall|j: int| k + 1 < j < s.len() implies name_of(s[j]) != n by {
        assert(s[j] == t[j - 1]);
    }
    lemma_last_named(s, n, k + 1);
}

proof fn lemma_added_empty(l: Seq<PartV>, r: Seq<PartV>)
    requires
        added(l, r).len() == 0,
    ensures
        forall|i: int| 0 <= i < r.len() ==> has_name(l, name_of(#[trigger] r[i])),
    decreases r.len(),
{
    if r.len() > 0 {
        let t = r.drop_first();
        lemma_added_empty(l, t);
        assert forall|i: int| 0 <= i < r.len() implies has_name(l, name_of(#[trigger] r[i])) by {
            if i > 0 {
                assert(r[i] == t[i - 1]);
            } else if has_name(t, name_of(r[0])) {
                let j = choose|j: int| 0 <= j < t.len() && name_of(t[j]) == name_of(r[0]);
                assert(has_name(l, name_of(t[j])));
            }
        }
    }
}

proof fn lemma_removed_empty(l: Seq<PartV>, r: Seq<PartV>)
    requires
        removed(l, r).len() == 0,
    ensures
        forall|i: int| 0 <= i < l.len() ==> has_name(r, name_of(#[trigger] l[i])),
    decreases l.len(),
{
    if l.len() > 0 {
        let t = l.drop_first();
        lemma_removed_empty(t, r);
        assert forall|i: int| 0 <= i < l.len() implies has_name(r, name_of(#[trigger] l[i])) by {
            if i > 0 {
                assert(l[i] == t[i - 1]);
            } else if has_name(t, name_of(l[0])) {
                let j = choose|j: int| 0 <= j < t.len() && name_of(t[j]) == name_of(l[0]);
                assert(has_name(r, name_of(t[j])));
            }
        }
    }
}

/// The parts named alike in `l` and `r` have equal checksums, the last part
/// of each name counting.
pub open spec fn same_checksums(l: Seq<PartV>, r: Seq<PartV>) -> bool {
    forall|i: int|
        0 <= i < r.len() ==> checksum_of(last_named(l, name_of(#[trigger] r[i]))) == checksum_of(
            last_named(r, name_of(r[i])),
        )
}

proof fn lemma_changes_empty(l: Seq<PartV>, r: Seq<PartV>)
    requires
        changes(l, r).len() == 0,
        forall|i: int| 0 <= i < r.len() ==> has_name(l, name_of(#[trigger] r[i])),
    ensures
        same_checksums(l, r),
    decreases r.len(),
{
    if r.len() > 0 {
        let t = r.drop_first();
        assert forall|i: int| 0 <= i < t.len() implies has_name(l, name_of(#[trigger] t[i])) by {
            assert(t[i] == r[i + 1]);
        }
        let n0 = name_of(r[0]);
        if !has_name(t, n0) {
            assert(has_name(l, n0));
            let d = diff_part_spec(last_named(l, n0), r[0]);
            if d is Some {
                assert(changes(l, r) == seq![d->Some_0] + changes(l, t));
            }
            assert(changes(l, r) == changes(l, t));
        } else {
            assert(changes(l, r) == changes(l, t));
        }
        lemma_changes_empty(l, t);
        assert forall|i: int| 0 <= i < r.len() implies checksum_of(last_named(l, name_of(#[trigger] r[i])))
            == checksum_of(last_named(r, name_of(r[i]))) by {
            let n = name_of(r[i]);
            if has_name(t, n) {
                lemma_last_named_drop_first(r, n);
                let j = choose|j: int| 0 <= j < t.len() && name_of(t[j]) == n;
                assert(checksum_of(last_named(l, name_of(t[j]))) == checksum_of(last_named(t, name_of(t[j]))));
            } else {
                if i > 0 {
                    assert(t[i - 1] == r[i]);
                }
                assert(i == 0);
                assert forall|j: int| 0 < j < r.len() implies name_of(r[j]) != n by {
                    assert(r[j] == t[j - 1]);
                }
                lemma_last_named(r, n, 0);
                let d = diff_part_spec(last_named(l, n), r[0]);
                if checksum_of(last_named(l, n)) != checksum_of(r[0]) {
                    assert(d is Some);
                    assert(changes(l, r) == seq![d->Some_0] + changes(l, t));
                }
            }
        }
    }
}

proof fn lemma_changes_none(l: Seq<PartV>, r: Seq<PartV>)
    requires
        same_checksums(l, r),
    ensures
        changes(l, r).len() == 0,
    decreases r.len(),
{
    if r.len() > 0 {
        let t = r.drop_first();
        assert forall|i: int| 0 <= i < t.len() implies checksum_of(last_named(l, name_of(#[trigger] t[i])))
            == checksum_of(last_named(t, name_of(t[i]))) by {
            assert(t[i] == r[i + 1]);
            lemma_last_named_drop_first(r, name_of(t[i]));
        }
        lemma_changes_none(l, t);
        let n0 = name_of(r[0]);
        if !has_name(t, n0) {
            assert forall|j: int| 0 < j < r.len() implies name_of(r[j]) != n0 by {
                assert(r[j] == t[j - 1]);
            }
            lemma_last_named(r, n0, 0);
            assert(checksum_of(last_named(l, n0)) == checksum_of(r[0]));
            assert(diff_part_spec(last_named(l, n0), r[0]) == None::<DiffV>);
        }
        assert(changes(l, r) == changes(l, t));
    }
}

/// The diff of two lists of parts is empty exactly when they hold the same
/// names and, for each name, parts with the same checksum (the last part of
/// a name counting): a pack is patched exactly when something changed.
pub proof fn lemma_empty_diff_iff_unchanged(l: Seq<PartV>, r: Seq<PartV>)
    ensures
        diff_parts_spec(l, r).len() == 0 <==> ((forall|n: Seq<char>| #[trigger] has_name(l, n) <==> has_name(r, n))
            && same_checksums(l, r)),
{
    let a = added(l, r);
    let b = removed(l, r);
    let c = changes(l, r);
    if diff_parts_spec(l, r).len() == 0 {
        assert(a.len() == 0 && b.len() == 0 && c.len() == 0);
        lemma_added_empty(l, r);
        lemma_removed_empty(l, r);
        assert forall|n: Seq<char>| #[trigger] has_name(l, n) <==> has_name(r, n) by {
            if has_name(l, n) {
                let i = choose|i: int| 0 <= i < l.len() && name_of(l[i]) == n;
                assert(has_name(r, name_of(l[i])));
            }
            if has_name(r, n) {
                let i = choose|i: int| 0 <= i < r.len() && name_of(r[i]) == n;
                assert(has_name(l, name_of(r[i])));
            }
        }
        lemma_changes_empty(l, r);
    }
    if (forall|n: Seq<char>| #[trigger] has_name(l, n) <==> has_name(r, n)) && same_checksums(l, r) {
        assert forall|i: int| 0 <= i < r.len() implies has_name(l, name_of(#[trigger] r[i])) by {
            assert(has_name(r, name_of(r[i])));
        }
        assert forall|i: int| 0 <= i < l.len() implies has_name(r, name_of(#[trigger] l[i])) by {
            assert(has_name(l, name_of(l[i])));
        }
        lemma_added_none(l, r);
        lemma_removed_none(l, r);
        lemma_changes_none(l, r);
    }
}

} // verus!
