//! The description of a pack's addons as a tree of parts (folders, generic
//! files and PBO archives with their inner files), with checksums, and its
//! mathematical model.
use vstd::prelude::*;

verus! {

/// One file inside a PBO archive.
#[derive(Debug)]
pub struct PBOPart {
    pub name: String,
    pub length: u32,
    pub checksum: Vec<u8>,
    pub start_offset: u64,
}

/// A file that is transferred whole.
#[derive(Debug)]
pub struct GenericFile {
    pub name: String,
    pub checksum: Vec<u8>,
    pub length: u64,
}

/// A PBO archive, patched part by part.
#[derive(Debug)]
pub struct PBOFile {
    pub name: String,
    pub checksum: Vec<u8>,
    pub parts: Vec<PBOPart>,
    pub blob_offset: u64,
}

/// A file of a pack.
#[derive(Debug)]
pub enum File {
    Generic(GenericFile),
    PBO(PBOFile),
}

/// A folder of a pack, with its children.
#[derive(Debug)]
pub struct Folder {
    pub name: String,
    pub checksum: Vec<u8>,
    pub children: Vec<PackPart>,
}

/// A node of a pack's tree.
#[derive(Debug)]
pub enum PackPart {
    File(File),
    Folder(Folder),
}

/// A pack's manifest: the pack's name and checksum and its required and
/// optional addons.
#[derive(Debug)]
pub struct PackManifest {
    pub name: String,
    pub pack_checksum: Vec<u8>,
    pub required_addons: Vec<PackPart>,
    pub optional_addons: Vec<PackPart>,
}

/// Model of a [`PBOPart`].
pub struct PboPartV {
    pub name: Seq<char>,
    pub length: u32,
    pub checksum: Seq<u8>,
    pub start_offset: u64,
}

/// Model of a [`PackPart`]: the same tree with sequences for strings and
/// vectors.
pub enum PartV {
    Generic { name: Seq<char>, checksum: Seq<u8>, length: u64 },
    Pbo { name: Seq<char>, checksum: Seq<u8>, parts: Seq<PboPartV>, blob_offset: u64 },
    Folder { name: Seq<char>, checksum: Seq<u8>, children: Seq<PartV> },
}

/// The name of a part.
pub open spec fn name_of(p: PartV) -> Seq<char> {
    match p {
        PartV::Generic { name, .. } => name,
        PartV::Pbo { name, .. } => name,
        PartV::Folder { name, .. } => name,
    }
}

/// The checksum of a part.
pub open spec fn checksum_of(p: PartV) -> Seq<u8> {
    match p {
        PartV::Generic { checksum, .. } => checksum,
        PartV::Pbo { checksum, .. } => checksum,
        PartV::Folder { checksum, .. } => checksum,
    }
}

/// The model of a PBO part.
pub open spec fn pbo_part_view(p: PBOPart) -> PboPartV {
    PboPartV {
        name: p.name@,
        length: p.length,
        checksum: p.checksum@,
        start_offset: p.start_offset,
    }
}

/// The models of a sequence of PBO parts.
pub open spec fn pbo_parts_view(s: Seq<PBOPart>) -> Seq<PboPartV> {
    Seq::new(s.len(), |i: int| pbo_part_view(s[i]))
}

/// The model of a part.
pub open spec fn part_view(p: PackPart) -> PartV
    decreases p,
{
    match p {
        PackPart::File(File::Generic(g)) => PartV::Generic {
            name: g.name@,
            checksum: g.checksum@,
            length: g.length,
        },
        PackPart::File(File::PBO(f)) => PartV::Pbo {
            name: f.name@,
            checksum: f.checksum@,
            parts: pbo_parts_view(f.parts@),
            blob_offset: f.blob_offset,
        },
        PackPart::Folder(f) => PartV::Folder {
            name: f.name@,
            checksum: f.checksum@,
            children: parts_view(f.children@),
        },
    }
}

/// The models of a sequence of parts.
pub open spec fn parts_view(s: Seq<PackPart>) -> Seq<PartV>
    decreases s,
{
    if s.len() == 0 {
        Seq::empty()
    } else {
        seq![part_view(s[0])] + parts_view(s.drop_first())
    }
}

/// `parts_view` maps every element.
pub proof fn lemma_parts_view(s: Seq<PackPart>)
    ensures
        parts_view(s).len() == s.len(),
        forall|i: int| 0 <= i < s.len() ==> #[trigger] parts_view(s)[i] == part_view(s[i]),
    decreases s.len(),
{
    if s.len() > 0 {
        lemma_parts_view(s.drop_first());
        assert forall|i: int| 0 <= i < s.len() implies #[trigger] parts_view(s)[i] == part_view(
            s[i],
        ) by {
            if i > 0 {
                assert(parts_view(s)[i] == parts_view(s.drop_first())[i - 1]);
            }
        }
    }
}

/// Two sequences of parts with equal models element by element have equal models.
pub proof fn lemma_parts_view_eq(a: Seq<PackPart>, b: Seq<PackPart>)
    requires
        a.len() == b.len(),
        forall|i: int| 0 <= i < a.len() ==> part_view(#[trigger] a[i]) == part_view(b[i]),
    ensures
        parts_view(a) == parts_view(b),
{
    lemma_parts_view(a);
    lemma_parts_view(b);
    assert(parts_view(a) =~= parts_view(b));
}

/// Copies a byte vector.
pub fn copy_bytes(v: &Vec<u8>) -> (r: Vec<u8>)
    ensures
        r@ == v@,
{
    v.clone()
}

/// Whether two byte vectors hold the same bytes.
pub fn bytes_eq(a: &Vec<u8>, b: &Vec<u8>) -> (r: bool)
    ensures
        r == (a@ == b@),
{
    if a.len() != b.len() {
        return false;
    }
    let mut i: usize = 0;
    while i < a.len()
        invariant
            a.len() == b.len(),
            i <= a.len(),
            forall|j: int| 0 <= j < i ==> a@[j] == b@[j],
        decreases a.len() - i,
    {
        if a[i] != b[i] {
            return false;
        }
        i = i + 1;
    }
    assert(a@ =~= b@);
    true
}

impl PBOPart {
    /// A copy of this part.
    pub fn copy(&self) -> (r: PBOPart)
        ensures
            pbo_part_view(r) == pbo_part_view(*self),
    {
        PBOPart {
            name: self.name.clone(),
            length: self.length,
            checksum: copy_bytes(&self.checksum),
            start_offset: self.start_offset,
        }
    }
}

/// Copies a vector of PBO parts.
pub fn copy_pbo_parts(v: &Vec<PBOPart>) -> (r: Vec<PBOPart>)
    ensures
        pbo_parts_view(r@) == pbo_parts_view(v@),
{
    let mut r: Vec<PBOPart> = Vec::new();
    let mut i: usize = 0;
    while i < v.len()
        invariant
            i <= v.len(),
            r@.len() == i,
            forall|j: int| 0 <= j < i ==> pbo_part_view(#[trigger] r@[j]) == pbo_part_view(v@[j]),
        decreases v.len() - i,
    {
        r.push(v[i].copy());
        i = i + 1;
    }
    assert(pbo_parts_view(r@) =~= pbo_parts_view(v@));
    r
}

impl PackPart {
    /// The name of this part.
    pub fn get_name(&self) -> (r: &String)
        ensures
            r@ == name_of(part_view(*self)),
    {
        match self {
            PackPart::File(File::Generic(g)) => &g.name,
            PackPart::File(File::PBO(f)) => &f.name,
            PackPart::Folder(f) => &f.name,
        }
    }

    /// The checksum of this part.
    pub fn get_checksum(&self) -> (r: &Vec<u8>)
        ensures
            r@ == checksum_of(part_view(*self)),
    {
        match self {
            PackPart::File(File::Generic(g)) => &g.checksum,
            PackPart::File(File::PBO(f)) => &f.checksum,
            PackPart::Folder(f) => &f.checksum,
        }
    }

    /// A copy of this part, children included.
    pub fn copy(&self) -> (r: PackPart)
        ensures
            part_view(r) == part_view(*self),
        decreases self,
    {
        match self {
            PackPart::File(File::Generic(g)) => PackPart::File(
                File::Generic(
                    GenericFile {
                        name: g.name.clone(),
                        checksum: copy_bytes(&g.checksum),
                        length: g.length,
                    },
                ),
            ),
            PackPart::File(File::PBO(f)) => PackPart::File(
                File::PBO(
                    PBOFile {
                        name: f.name.clone(),
                        checksum: copy_bytes(&f.checksum),
                        parts: copy_pbo_parts(&f.parts),
                        blob_offset: f.blob_offset,
                    },
                ),
            ),
            PackPart::Folder(f) => {
                let children = copy_parts(&f.children);
                PackPart::Folder(
                    Folder { name: f.name.clone(), checksum: copy_bytes(&f.checksum), children },
                )
            },
        }
    }
}

/// Copies a vector of parts, children included.
pub fn copy_parts(v: &Vec<PackPart>) -> (r: Vec<PackPart>)
    ensures
        parts_view(r@) == parts_view(v@),
    decreases v,
{
    let mut r: Vec<PackPart> = Vec::new();
    let mut i: usize = 0;
    while i < v.len()
        invariant
            i <= v.len(),
            r@.len() == i,
            forall|j: int| 0 <= j < i ==> part_view(#[trigger] r@[j]) == part_view(v@[j]),
        decreases v.len() - i,
    {
        assert(decreases_to!(v => v@[i as int]));
        r.push(v[i].copy());
        i = i + 1;
    }
    proof {
        lemma_parts_view_eq(r@, v@);
    }
    r
}

} // verus!
