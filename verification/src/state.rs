//! The manifest of a pack's working state: which addon folders it knows, with
//! their checksums, compared with the addon folders on disk.
use vstd::prelude::*;

use crate::manifest::{bytes_eq, checksum_of, copy_bytes, name_of, part_view, PackManifest, PackPart};
use crate::models::{contains_str, str_views};
use crate::paths::{join_path, join_spec};
use crate::entries::{sha1_digest, sha1_of};

verus! {

/// The addon folders a pack's state knows (by path relative to the pack,
/// such as `required/@addon`), with their checksums, and the pack checksum.
#[derive(Debug)]
pub struct StateManifest {
    pub addons: Vec<(String, Vec<u8>)>,
    pub pack_checksum: Vec<u8>,
}

/// Which known addons vanished from disk, which addons on disk are new, and
/// which known addons are still there and may have changed.
#[derive(Debug)]
pub struct AddonChanges {
    pub removed: Vec<String>,
    pub created: Vec<String>,
    pub potentially_modified: Vec<String>,
}

/// The changes to apply to a pack's state: new addons with their parts,
/// vanished addons, and changed addons with their new parts.
#[derive(Debug)]
pub struct StateDiff {
    pub added: Vec<(String, PackPart)>,
    pub removed: Vec<String>,
    pub modified: Vec<(String, PackPart)>,
}

/// The paths of known addons.
pub open spec fn known_paths(addons: Seq<(String, Vec<u8>)>) -> Seq<Seq<char>> {
    Seq::new(addons.len(), |i: int| addons[i].0@)
}

/// The paths of `s` that `other` holds (`keep` true) or lacks (`keep` false),
/// in order.
pub open spec fn select(s: Seq<Seq<char>>, other: Seq<Seq<char>>, keep: bool) -> Seq<Seq<char>>
    decreases s.len(),
{
    if s.len() == 0 {
        Seq::empty()
    } else {
        let before = select(s.drop_last(), other, keep);
        if other.contains(s.last()) == keep {
            before.push(s.last())
        } else {
            before
        }
    }
}

/// The paths of `s` that `other` holds (`keep`) or lacks (`!keep`), in order.
pub(crate) fn select_exec(s: &Vec<String>, other: &Vec<String>, keep: bool) -> (r: Vec<String>)
    ensures
        str_views(r@) == select(str_views(s@), str_views(other@), keep),
{
    let mut r: Vec<String> = Vec::new();
    let mut i: usize = 0;
    while i < s.len()
        invariant
            i <= s.len(),
            str_views(r@) == select(str_views(s@).take(i as int), str_views(other@), keep),
        decreases s.len() - i,
    {
        let ghost t = str_views(s@).take(i + 1);
        proof {
            assert(t.drop_last() =~= str_views(s@).take(i as int));
            assert(t.last() == s@[i as int]@);
        }
        if contains_str(other, s[i].as_str()) == keep {
            let ghost before = str_views(r@);
            r.push(s[i].clone());
            proof {
                assert(str_views(r@) =~= before.push(s@[i as int]@));
            }
        }
        i = i + 1;
    }
    proof {
        assert(str_views(s@).take(s.len() as int) =~= str_views(s@));
    }
    r
}

/// The folder of a pack's addons at `dir` named `name`: `<dir>/<name>`.
pub fn addon_rel_path(dir: &str, name: &str) -> (r: String)
    ensures
        r@ == join_spec(dir@, name@),
{
    join_path(dir, name)
}

/// Known addons with their recorded checksums.
pub open spec fn entry_views(s: Seq<(String, Vec<u8>)>) -> Seq<(Seq<char>, Seq<u8>)> {
    Seq::new(s.len(), |i: int| (s[i].0@, s[i].1@))
}

/// The known addons whose paths `removed` lacks, with their checksums, in
/// order.
pub open spec fn kept_entries(s: Seq<(Seq<char>, Seq<u8>)>, removed: Seq<Seq<char>>) -> Seq<(Seq<char>, Seq<u8>)>
    decreases s.len(),
{
    if s.len() == 0 {
        Seq::empty()
    } else {
        let before = kept_entries(s.drop_last(), removed);
        if removed.contains(s.last().0) {
            before
        } else {
            before.push(s.last())
        }
    }
}

/// Added addons with the checksums of their parts.
pub open spec fn added_entries(s: Seq<(String, PackPart)>) -> Seq<(Seq<char>, Seq<u8>)> {
    Seq::new(s.len(), |i: int| (s[i].0@, checksum_of(part_view(s[i].1))))
}

impl StateManifest {
    /// Compares the known addons with the addon folders found on disk:
    /// known addons not on disk are removed, addons on disk not known are
    /// created, known addons on disk may have been modified. Each list keeps
    /// the order of its source.
    pub fn plan_addon_changes(&self, fs_addons: &Vec<String>) -> (r: AddonChanges)
        ensures
            str_views(r.removed@) == select(known_paths(self.addons@), str_views(fs_addons@), false),
            str_views(r.created@) == select(str_views(fs_addons@), known_paths(self.addons@), false),
            str_views(r.potentially_modified@) == select(
                known_paths(self.addons@),
                str_views(fs_addons@),
                true,
            ),
    {
        let mut known: Vec<String> = Vec::new();
        let mut i: usize = 0;
        while i < self.addons.len()
            invariant
                i <= self.addons.len(),
                str_views(known@) == known_paths(self.addons@).take(i as int),
            decreases self.addons.len() - i,
        {
            let ghost before = str_views(known@);
            known.push(self.addons[i].0.clone());
            proof {
                assert(str_views(known@) =~= before.push(self.addons@[i as int].0@));
                assert(known_paths(self.addons@).take(i + 1) =~= before.push(self.addons@[i as int].0@));
            }
            i = i + 1;
        }
        proof {
            assert(known_paths(self.addons@).take(self.addons.len() as int) =~= known_paths(
                self.addons@,
            ));
        }
        AddonChanges {
            removed: select_exec(&known, fs_addons, false),
            created: select_exec(fs_addons, &known, false),
            potentially_modified: select_exec(&known, fs_addons, true),
        }
    }

    /// The state after applying `diff`: the known addons without the removed
    /// ones, followed by the added ones with their parts' checksums. (Changed
    /// addons keep their recorded checksums; only their part files change.)
    /// The pack checksum is the one given, computed from the stored parts.
    pub fn apply_pack_diff(self, diff: &StateDiff, pack_checksum: Vec<u8>) -> (r: StateManifest)
        ensures
            entry_views(r.addons@) == kept_entries(entry_views(self.addons@), str_views(diff.removed@))
                + added_entries(diff.added@),
            known_paths(r.addons@) == select(
                known_paths(self.addons@),
                str_views(diff.removed@),
                false,
            ) + Seq::new(diff.added@.len(), |i: int| diff.added@[i].0@),
            r.pack_checksum == pack_checksum,
    {
        let mut out: Vec<(String, Vec<u8>)> = Vec::new();
        let mut i: usize = 0;
        while i < self.addons.len()
            invariant
                i <= self.addons.len(),
                known_paths(out@) == select(
                    known_paths(self.addons@).take(i as int),
                    str_views(diff.removed@),
                    false,
                ),
                entry_views(out@) == kept_entries(entry_views(self.addons@).take(i as int), str_views(diff.removed@)),
            decreases self.addons.len() - i,
        {
            let ghost t = known_paths(self.addons@).take(i + 1);
            let ghost te = entry_views(self.addons@).take(i + 1);
            proof {
                assert(t.drop_last() =~= known_paths(self.addons@).take(i as int));
                assert(t.last() == self.addons@[i as int].0@);
                assert(te.drop_last() =~= entry_views(self.addons@).take(i as int));
                assert(te.last() == (self.addons@[i as int].0@, self.addons@[i as int].1@));
            }
            if !contains_str(&diff.removed, self.addons[i].0.as_str()) {
                let ghost before = known_paths(out@);
                let ghost before_e = entry_views(out@);
                out.push((self.addons[i].0.clone(), copy_bytes(&self.addons[i].1)));
                proof {
                    assert(known_paths(out@) =~= before.push(self.addons@[i as int].0@));
                    assert(entry_views(out@) =~= before_e.push(te.last()));
                }
            }
            i = i + 1;
        }
        proof {
            assert(known_paths(self.addons@).take(self.addons.len() as int) =~= known_paths(
                self.addons@,
            ));
        }
        proof {
            assert(entry_views(self.addons@).take(self.addons.len() as int) =~= entry_views(self.addons@));
        }
        let base = out.len();
        let ghost kept = known_paths(out@);
        let ghost kept_e = entry_views(out@);
        let mut j: usize = 0;
        while j < diff.added.len()
            invariant
                j <= diff.added.len(),
                base <= out.len(),
                out@.len() == base + j,
                kept.len() == base,
                known_paths(out@) == kept + Seq::new(j as nat, |k: int| diff.added@[k].0@),
                kept_e.len() == base,
                entry_views(out@) == kept_e + added_entries(diff.added@).take(j as int),
                forall|k: int|
                    base <= k < out@.len() ==> (#[trigger] out@[k]).1@ == checksum_of(
                        part_view(diff.added@[k - base].1),
                    ),
            decreases diff.added.len() - j,
        {
            let ghost before = known_paths(out@);
            let ghost before_e = entry_views(out@);
            out.push((diff.added[j].0.clone(), copy_bytes(diff.added[j].1.get_checksum())));
            proof {
                assert(entry_views(out@) =~= before_e.push(added_entries(diff.added@)[j as int]));
                assert(added_entries(diff.added@).take(j + 1) =~= added_entries(diff.added@).take(j as int).push(added_entries(diff.added@)[j as int]));
                assert(known_paths(out@) =~= before.push(diff.added@[j as int].0@));
                assert(kept + Seq::new((j + 1) as nat, |k: int| diff.added@[k].0@) =~= (kept + Seq::new(j as nat, |k: int| diff.added@[k].0@)).push(diff.added@[j as int].0@));
            }
            j = j + 1;
        }
        proof {
            assert(Seq::new(diff.added@.len(), |k: int| diff.added@[k].0@) =~= Seq::new(
                j as nat,
                |k: int| diff.added@[k].0@,
            ));
            assert(added_entries(diff.added@).take(j as int) =~= added_entries(diff.added@));
        }
        StateManifest { addons: out, pack_checksum }
    }
}

/// Whether a re-read part replaces the stored one: when there is no stored
/// part, or its checksum differs.
pub fn part_needs_update(stored: Option<&PackPart>, new_part: &PackPart) -> (r: bool)
    ensures
        r == match stored {
            Some(p) => checksum_of(part_view(*p)) != checksum_of(part_view(*new_part)),
            None => true,
        },
{
    match stored {
        Some(p) => !bytes_eq(p.get_checksum(), new_part.get_checksum()),
        None => true,
    }
}

/// The part to store for an addon folder after re-reading it as `new_part`,
/// or `None` when the stored part `stored` still holds: with
/// `force_refresh` the re-read part is stored whatever was stored before;
/// otherwise it is stored when there is no stored part or the checksums
/// differ (see [`part_needs_update`]).
pub fn update_part(stored: Option<PackPart>, new_part: PackPart, force_refresh: bool) -> (r: Option<PackPart>)
    ensures
        force_refresh ==> r == Some(new_part),
        !force_refresh ==> r == match stored {
            Some(p) => if checksum_of(part_view(p)) == checksum_of(part_view(new_part)) {
                None
            } else {
                Some(new_part)
            },
            None => Some(new_part),
        },
{
    if force_refresh {
        return Some(new_part);
    }
    if part_needs_update(stored.as_ref(), &new_part) {
        Some(new_part)
    } else {
        None
    }
}

/// A path is selected exactly when `s` holds it and `other` holds it (`keep`)
/// or lacks it (`!keep`).
pub proof fn lemma_select_contains(s: Seq<Seq<char>>, other: Seq<Seq<char>>, keep: bool, x: Seq<char>)
    ensures
        select(s, other, keep).contains(x) <==> s.contains(x) && other.contains(x) == keep,
    decreases s.len(),
{
    if s.len() > 0 {
        lemma_select_contains(s.drop_last(), other, keep, x);
        let before = select(s.drop_last(), other, keep);
        if s.contains(x) && !s.drop_last().contains(x) {
            let i = choose|i: int| 0 <= i < s.len() && s[i] == x;
            if i < s.len() - 1 {
                assert(s.drop_last()[i] == x);
            }
        }
        if s.drop_last().contains(x) {
            let i = choose|i: int| 0 <= i < s.drop_last().len() && s.drop_last()[i] == x;
            assert(s[i] == x);
        }
        if other.contains(s.last()) == keep {
            assert(before.push(s.last())[before.len() as int] == s.last());
            if before.contains(x) {
                let i = choose|i: int| 0 <= i < before.len() && before[i] == x;
                assert(before.push(s.last())[i] == x);
            }
            if before.push(s.last()).contains(x) && x != s.last() {
                let i = choose|i: int| 0 <= i < before.len() + 1 && before.push(s.last())[i] == x;
                assert(before[i] == x);
            }
        }
        assert(s[s.len() - 1] == s.last());
    }
}

/// The planned changes split the known addons: each known addon is either
/// removed or potentially modified, never both; created addons are not known.
/// Dropping the removed addons and adding the created ones leaves the state
/// knowing exactly the addons on disk.
pub proof fn lemma_planned_changes_match_disk(
    known: Seq<Seq<char>>,
    on_disk: Seq<Seq<char>>,
    x: Seq<char>,
)
    ensures
        known.contains(x) <==> (select(known, on_disk, false).contains(x) || select(
            known,
            on_disk,
            true,
        ).contains(x)),
        !(select(known, on_disk, false).contains(x) && select(known, on_disk, true).contains(x)),
        select(on_disk, known, false).contains(x) ==> !known.contains(x),
        (select(known, select(known, on_disk, false), false) + select(
            on_disk,
            known,
            false,
        )).contains(x) <==> on_disk.contains(x),
{
    let removed = select(known, on_disk, false);
    let created = select(on_disk, known, false);
    let kept = select(known, removed, false);
    lemma_select_contains(known, on_disk, false, x);
    lemma_select_contains(known, on_disk, true, x);
    lemma_select_contains(on_disk, known, false, x);
    lemma_select_contains(known, removed, false, x);
    if (kept + created).contains(x) {
        let i = choose|i: int| 0 <= i < (kept + created).len() && (kept + created)[i] == x;
        if i < kept.len() {
            assert(kept[i] == x);
        } else {
            assert(created[i - kept.len()] == x);
        }
    }
    if kept.contains(x) {
        let i = choose|i: int| 0 <= i < kept.len() && kept[i] == x;
        assert((kept + created)[i] == x);
    }
    if created.contains(x) {
        let i = choose|i: int| 0 <= i < created.len() && created[i] == x;
        assert((kept + created)[kept.len() + i] == x);
    }
}

/// The known addons after applying the planned changes: the kept ones, then
/// the created ones.
pub open spec fn after_changes(known: Seq<Seq<char>>, on_disk: Seq<Seq<char>>) -> Seq<Seq<char>> {
    select(known, select(known, on_disk, false), false) + select(on_disk, known, false)
}

/// Once the planned changes are applied, planning again against the same
/// disk finds nothing removed and nothing created.
pub proof fn lemma_replanning_finds_nothing(known: Seq<Seq<char>>, on_disk: Seq<Seq<char>>)
    ensures
        select(after_changes(known, on_disk), on_disk, false).len() == 0,
        select(on_disk, after_changes(known, on_disk), false).len() == 0,
{
    let next = after_changes(known, on_disk);
    let a = select(next, on_disk, false);
    let b = select(on_disk, next, false);
    if a.len() > 0 {
        lemma_select_contains(next, on_disk, false, a[0]);
        lemma_planned_changes_match_disk(known, on_disk, a[0]);
        assert(a.contains(a[0]));
    }
    if b.len() > 0 {
        lemma_select_contains(on_disk, next, false, b[0]);
        lemma_planned_changes_match_disk(known, on_disk, b[0]);
        assert(b.contains(b[0]));
    }
}

/// Whether name `a` sorts strictly before name `b`: character by character,
/// a proper prefix first.
pub open spec fn name_lt(a: Seq<char>, b: Seq<char>) -> bool
    decreases a.len(),
{
    if a.len() == 0 {
        b.len() > 0
    } else if b.len() == 0 {
        false
    } else if a[0] != b[0] {
        (a[0] as u32) < (b[0] as u32)
    } else {
        name_lt(a.drop_first(), b.drop_first())
    }
}

/// Whether name `a` sorts strictly before name `b` (see [`name_lt`]).
pub fn name_less(a: &str, b: &str) -> (r: bool)
    ensures
        r == name_lt(a@, b@),
{
    let ac = crate::text::chars_of(a);
    let bc = crate::text::chars_of(b);
    let mut i: usize = 0;
    proof {
        assert(a@.skip(0) =~= a@);
        assert(b@.skip(0) =~= b@);
    }
    while i < ac.len() && i < bc.len()
        invariant
            ac@ == a@,
            bc@ == b@,
            i <= ac.len(),
            i <= bc.len(),
            name_lt(a@, b@) == name_lt(a@.skip(i as int), b@.skip(i as int)),
        decreases ac.len() - i,
    {
        let ghost sa = a@.skip(i as int);
        let ghost sb = b@.skip(i as int);
        proof {
            assert(sa[0] == ac@[i as int]);
            assert(sb[0] == bc@[i as int]);
        }
        if ac[i] != bc[i] {
            return (ac[i] as u32) < (bc[i] as u32);
        }
        proof {
            assert(sa.drop_first() =~= a@.skip(i + 1));
            assert(sb.drop_first() =~= b@.skip(i + 1));
        }
        i = i + 1;
    }
    proof {
        assert(a@.skip(i as int).len() == ac.len() - i);
        assert(b@.skip(i as int).len() == bc.len() - i);
    }
    i == ac.len() && i < bc.len()
}

/// Where `x` goes among `s`: before the first entry whose name sorts after
/// its own, so that entries of equal names keep their order.
pub open spec fn insert_pos<T>(s: Seq<(Seq<char>, T)>, x: (Seq<char>, T)) -> nat
    decreases s.len(),
{
    if s.len() == 0 || name_lt(x.0, s[0].0) {
        0
    } else {
        1 + insert_pos(s.drop_first(), x)
    }
}

/// The entries ordered by name, entries of equal names in their input
/// order (a stable sort).
pub open spec fn by_name<T>(s: Seq<(Seq<char>, T)>) -> Seq<(Seq<char>, T)>
    decreases s.len(),
{
    if s.len() == 0 {
        Seq::empty()
    } else {
        let t = by_name(s.drop_last());
        t.insert(insert_pos(t, s.last()) as int, s.last())
    }
}

/// The concatenated checksums of named entries.
pub open spec fn named_checksums(s: Seq<(Seq<char>, Vec<u8>)>) -> Seq<u8>
    decreases s.len(),
{
    if s.len() == 0 {
        Seq::empty()
    } else {
        named_checksums(s.drop_last()) + s.last().1@
    }
}

/// The checksums of two lists of named checksums, one after the other, are
/// the checksums of the joined list.
pub proof fn lemma_named_checksums_append(a: Seq<(Seq<char>, Vec<u8>)>, b: Seq<(Seq<char>, Vec<u8>)>)
    ensures
        named_checksums(a + b) == named_checksums(a) + named_checksums(b),
    decreases b.len(),
{
    if b.len() == 0 {
        assert(a + b =~= a);
        assert(named_checksums(a) + Seq::<u8>::empty() =~= named_checksums(a));
    } else {
        assert((a + b).drop_last() =~= a + b.drop_last());
        assert((a + b).last() == b.last());
        lemma_named_checksums_append(a, b.drop_last());
        assert(named_checksums(a) + named_checksums(b.drop_last()) + b.last().1@ =~= named_checksums(a) + (
        named_checksums(b.drop_last()) + b.last().1@));
    }
}

/// The checksums of a single named checksum are that checksum.
pub proof fn lemma_named_checksums_single(x: (Seq<char>, Vec<u8>))
    ensures
        named_checksums(seq![x]) == x.1@,
{
    assert(seq![x].drop_last() =~= Seq::<(Seq<char>, Vec<u8>)>::empty());
    assert(named_checksums(Seq::<(Seq<char>, Vec<u8>)>::empty()) == Seq::<u8>::empty());
    assert(seq![x].last() == x);
    assert(Seq::<u8>::empty() + x.1@ =~= x.1@);
}

/// Named values with the names viewed.
pub open spec fn named_view<T>(s: Seq<(String, T)>) -> Seq<(Seq<char>, T)> {
    Seq::new(s.len(), |i: int| (s[i].0@, s[i].1))
}

proof fn lemma_insert_pos_bound<T>(s: Seq<(Seq<char>, T)>, x: (Seq<char>, T))
    ensures
        insert_pos(s, x) <= s.len(),
    decreases s.len(),
{
    if s.len() > 0 && !name_lt(x.0, s[0].0) {
        lemma_insert_pos_bound(s.drop_first(), x);
    }
}

proof fn lemma_insert_pos_at<T>(s: Seq<(Seq<char>, T)>, x: (Seq<char>, T), k: int)
    requires
        0 <= k <= s.len(),
        forall|j: int| 0 <= j < k ==> !name_lt(x.0, #[trigger] s[j].0),
        k == s.len() || name_lt(x.0, s[k].0),
    ensures
        insert_pos(s, x) == k,
    decreases k,
{
    if k > 0 {
        assert(!name_lt(x.0, s[0].0));
        assert forall|j: int| 0 <= j < k - 1 implies !name_lt(x.0, #[trigger] s.drop_first()[j].0) by {
            assert(s.drop_first()[j] == s[j + 1]);
        }
        lemma_insert_pos_at(s.drop_first(), x, k - 1);
    }
}

/// The entries ordered by name (see [`by_name`]).
pub fn sort_by_name<T>(entries: Vec<(String, T)>) -> (r: Vec<(String, T)>)
    ensures
        named_view(r@) == by_name(named_view(entries@)),
{
    let ghost ev = named_view(entries@);
    let mut r: Vec<(String, T)> = Vec::new();
    let mut rest = entries;
    // Take the entries in their input order.
    let mut rev: Vec<(String, T)> = Vec::new();
    while rest.len() > 0
        invariant
            named_view(rest@) == ev.take(rest.len() as int),
            ev.len() == rest.len() + rev.len(),
            forall|j: int| 0 <= j < rev.len() ==> #[trigger] named_view(rev@)[j] == ev[ev.len() - 1 - j],
        decreases rest.len(),
    {
        let ghost n = rest.len();
        let e = rest.pop().unwrap();
        proof {
            assert(named_view(rest@) =~= ev.take(n - 1));
            assert(named_view(rest@.push(e)) == ev.take(n as int));
            assert(named_view(rest@.push(e))[n - 1] == (e.0@, e.1));
        }
        let ghost before = rev@;
        rev.push(e);
        proof {
            assert forall|j: int| 0 <= j < rev.len() implies #[trigger] named_view(rev@)[j] == ev[ev.len() - 1 - j] by {
                if j < before.len() {
                    assert(rev@[j] == before[j]);
                    assert(named_view(before)[j] == ev[ev.len() - 1 - j]);
                }
            }
        }
    }
    let mut i: usize = 0;
    proof {
        assert(ev.take(0) =~= Seq::<(Seq<char>, T)>::empty());
        assert(named_view(r@) =~= by_name(ev.take(0)));
    }
    while rev.len() > 0
        invariant
            ev.len() == i + rev.len(),
            ev.len() <= usize::MAX,
            forall|j: int| 0 <= j < rev.len() ==> #[trigger] named_view(rev@)[j] == ev[ev.len() - 1 - j],
            named_view(r@) == by_name(ev.take(i as int)),
        decreases rev.len(),
    {
        let ghost m = rev.len();
        let ghost old_rev = rev@;
        let e = rev.pop().unwrap();
        proof {
            assert(old_rev[m - 1] == e);
            assert(named_view(old_rev)[m - 1] == (e.0@, e.1));
            assert((e.0@, e.1) == ev[i as int]);
            assert forall|j: int| 0 <= j < rev.len() implies #[trigger] named_view(rev@)[j] == ev[ev.len() - 1 - j] by {
                assert(rev@[j] == old_rev[j]);
                assert(named_view(old_rev)[j] == ev[ev.len() - 1 - j]);
            }
        }
        let ghost x = (e.0@, e.1);
        let ghost t = named_view(r@);
        let mut k: usize = 0;
        while k < r.len() && !name_less(e.0.as_str(), r[k].0.as_str())
            invariant
                k <= r.len(),
                t == named_view(r@),
                x == (e.0@, e.1),
                forall|j: int| 0 <= j < k ==> !name_lt(x.0, #[trigger] t[j].0),
            decreases r.len() - k,
        {
            assert(t[k as int].0 == r@[k as int].0@);
            k = k + 1;
        }
        proof {
            if k < r.len() {
                assert(t[k as int].0 == r@[k as int].0@);
            }
            lemma_insert_pos_at(t, x, k as int);
            assert(ev.take(i + 1).drop_last() =~= ev.take(i as int));
            assert(ev.take(i + 1).last() == x);
        }
        r.insert(k, e);
        proof {
            assert(named_view(r@) =~= t.insert(k as int, x));
        }
        i = i + 1;
    }
    proof {
        assert(ev.take(i as int) =~= ev);
    }
    r
}

/// The checksum of a pack's stored parts: the SHA-1 of their checksums,
/// concatenated in the order of their file names.
pub fn pack_checksum(parts: Vec<(String, Vec<u8>)>) -> (r: Vec<u8>)
    ensures
        r@ == sha1_of(named_checksums(by_name(named_view(parts@)))),
{
    let sorted = sort_by_name(parts);
    let ghost sv = named_view(sorted@);
    let mut buf: Vec<u8> = Vec::new();
    let mut i: usize = 0;
    proof {
        assert(sv.take(0) =~= Seq::<(Seq<char>, Vec<u8>)>::empty());
    }
    while i < sorted.len()
        invariant
            i <= sorted.len(),
            sv == named_view(sorted@),
            buf@ == named_checksums(sv.take(i as int)),
        decreases sorted.len() - i,
    {
        let ghost before = buf@;
        let mut i2: usize = 0;
        while i2 < sorted[i].1.len()
            invariant
                i < sorted.len(),
                i2 <= sorted@[i as int].1@.len(),
                buf@ == before + sorted@[i as int].1@.take(i2 as int),
            decreases sorted@[i as int].1@.len() - i2,
        {
            buf.push(sorted[i].1[i2]);
            proof {
                assert(sorted@[i as int].1@.take(i2 + 1) =~= sorted@[i as int].1@.take(i2 as int).push(sorted@[i as int].1@[i2 as int]));
                assert(buf@ =~= before + sorted@[i as int].1@.take(i2 + 1));
            }
            i2 = i2 + 1;
        }
        proof {
            assert(sorted@[i as int].1@.take(i2 as int) =~= sorted@[i as int].1@);
            assert(sv.take(i + 1).drop_last() =~= sv.take(i as int));
            assert(sv.take(i + 1).last() == sv[i as int]);
        }
        i = i + 1;
    }
    proof {
        assert(sv.take(sorted.len() as int) =~= sv);
    }
    sha1_digest(buf.as_slice())
}

proof fn lemma_name_lt_transitive(a: Seq<char>, b: Seq<char>, c: Seq<char>)
    requires
        name_lt(a, b),
        name_lt(b, c),
    ensures
        name_lt(a, c),
    decreases a.len(),
{
    if a.len() > 0 && b.len() > 0 && c.len() > 0 && a[0] == b[0] && b[0] == c[0] {
        lemma_name_lt_transitive(a.drop_first(), b.drop_first(), c.drop_first());
    }
}

proof fn lemma_name_lt_irreflexive(a: Seq<char>)
    ensures
        !name_lt(a, a),
    decreases a.len(),
{
    if a.len() > 0 {
        lemma_name_lt_irreflexive(a.drop_first());
    }
}

proof fn lemma_insert_pos_facts<T>(s: Seq<(Seq<char>, T)>, x: (Seq<char>, T))
    ensures
        insert_pos(s, x) <= s.len(),
        forall|j: int| 0 <= j < insert_pos(s, x) ==> !name_lt(x.0, #[trigger] s[j].0),
        insert_pos(s, x) < s.len() ==> name_lt(x.0, s[insert_pos(s, x) as int].0),
    decreases s.len(),
{
    if s.len() > 0 && !name_lt(x.0, s[0].0) {
        lemma_insert_pos_facts(s.drop_first(), x);
        assert forall|j: int| 0 <= j < insert_pos(s, x) implies !name_lt(x.0, #[trigger] s[j].0) by {
            if j > 0 {
                assert(s[j] == s.drop_first()[j - 1]);
            }
        }
        if insert_pos(s, x) < s.len() {
            assert(s[insert_pos(s, x) as int] == s.drop_first()[insert_pos(s.drop_first(), x) as int]);
        }
    }
}

/// Ordering by name keeps the entries: the result holds each entry as often
/// as the input does.
pub proof fn lemma_by_name_permutes<T>(s: Seq<(Seq<char>, T)>)
    ensures
        by_name(s).to_multiset() == s.to_multiset(),
    decreases s.len(),
{
    if s.len() == 0 {
        assert(by_name(s) =~= s);
    } else {
        let t = by_name(s.drop_last());
        lemma_by_name_permutes(s.drop_last());
        lemma_insert_pos_facts(t, s.last());
        vstd::seq_lib::to_multiset_insert(t, insert_pos(t, s.last()) as int, s.last());
        vstd::seq_lib::to_multiset_build(s.drop_last(), s.last());
        assert(s.drop_last().push(s.last()) =~= s);
    }
}

/// Ordering by name sorts the entries: no entry's name sorts before the
/// name of an entry placed earlier.
pub proof fn lemma_by_name_sorted<T>(s: Seq<(Seq<char>, T)>)
    ensures
        forall|i: int, j: int|
            0 <= i < j < by_name(s).len() ==> !name_lt(#[trigger] by_name(s)[j].0, #[trigger] by_name(s)[i].0),
    decreases s.len(),
{
    if s.len() > 0 {
        let t = by_name(s.drop_last());
        let x = s.last();
        let k = insert_pos(t, x) as int;
        lemma_by_name_sorted(s.drop_last());
        lemma_insert_pos_facts(t, x);
        let u = t.insert(k, x);
        assert(u == by_name(s));
        assert forall|i: int, j: int| 0 <= i < j < u.len() implies !name_lt(#[trigger] u[j].0, #[trigger] u[i].0) by {
            if j < k {
                assert(u[i] == t[i] && u[j] == t[j]);
            } else if j == k {
                assert(u[i] == t[i]);
                assert(u[j] == x);
                assert(!name_lt(x.0, t[i].0));
            } else if i == k {
                assert(u[j] == t[j - 1]);
                assert(u[i] == x);
                if name_lt(t[j - 1].0, x.0) {
                    assert(name_lt(x.0, t[k].0));
                    lemma_name_lt_transitive(t[j - 1].0, x.0, t[k].0);
                    if k < j - 1 {
                        assert(!name_lt(t[j - 1].0, t[k].0));
                    } else {
                        lemma_name_lt_irreflexive(t[k].0);
                    }
                }
            } else if i < k {
                assert(u[i] == t[i] && u[j] == t[j - 1]);
            } else {
                assert(u[i] == t[i - 1] && u[j] == t[j - 1]);
            }
        }
    }
}

/// Parts paired with their names.
pub open spec fn name_pairs(s: Seq<PackPart>) -> Seq<(Seq<char>, PackPart)> {
    Seq::new(s.len(), |i: int| (name_of(part_view(s[i])), s[i]))
}

/// The values of named pairs.
pub open spec fn pair_values<T>(s: Seq<(Seq<char>, T)>) -> Seq<T> {
    Seq::new(s.len(), |i: int| s[i].1)
}

/// The concatenated checksums of parts.
pub open spec fn parts_checksums(s: Seq<PackPart>) -> Seq<u8>
    decreases s.len(),
{
    if s.len() == 0 {
        Seq::empty()
    } else {
        parts_checksums(s.drop_last()) + checksum_of(part_view(s.last()))
    }
}

/// The checksums of two lists of parts, one after the other, are the
/// checksums of the joined list.
pub proof fn lemma_parts_checksums_append(a: Seq<PackPart>, b: Seq<PackPart>)
    ensures
        parts_checksums(a + b) == parts_checksums(a) + parts_checksums(b),
    decreases b.len(),
{
    if b.len() == 0 {
        assert(a + b =~= a);
        assert(parts_checksums(a) + Seq::<u8>::empty() =~= parts_checksums(a));
    } else {
        assert((a + b).drop_last() =~= a + b.drop_last());
        assert((a + b).last() == b.last());
        lemma_parts_checksums_append(a, b.drop_last());
        assert(parts_checksums(a) + parts_checksums(b.drop_last()) + checksum_of(part_view(b.last()))
            =~= parts_checksums(a) + (parts_checksums(b.drop_last()) + checksum_of(part_view(b.last()))));
    }
}

/// The checksums of a single part are its checksum.
pub proof fn lemma_parts_checksums_single(p: PackPart)
    ensures
        parts_checksums(seq![p]) == checksum_of(part_view(p)),
{
    assert(seq![p].drop_last() =~= Seq::<PackPart>::empty());
    assert(parts_checksums(Seq::<PackPart>::empty()) == Seq::<u8>::empty());
    assert(seq![p].last() == p);
    assert(Seq::<u8>::empty() + checksum_of(part_view(p)) =~= checksum_of(part_view(p)));
}

/// Parts ordered by name (see [`by_name`]).
fn sort_parts(parts: Vec<PackPart>) -> (r: Vec<PackPart>)
    ensures
        r@ == pair_values(by_name(name_pairs(parts@))),
{
    let mut pairs: Vec<(String, PackPart)> = Vec::new();
    let mut rest = parts;
    let ghost orig = rest@;
    let mut rev: Vec<PackPart> = Vec::new();
    while rest.len() > 0
        invariant
            rest@ == orig.take(rest.len() as int),
            orig.len() == rest.len() + rev.len(),
            forall|j: int| 0 <= j < rev.len() ==> #[trigger] rev@[j] == orig[orig.len() - 1 - j],
        decreases rest.len(),
    {
        let ghost n = rest.len();
        let ghost before = rest@;
        let p = rest.pop().unwrap();
        proof {
            assert(before[n - 1] == p);
            assert(rest@ =~= orig.take(n - 1));
        }
        rev.push(p);
    }
    proof {
        assert(named_view(pairs@) =~= name_pairs(orig).take(0));
    }
    while rev.len() > 0
        invariant
            orig.len() == pairs.len() + rev.len(),
            forall|j: int| 0 <= j < rev.len() ==> #[trigger] rev@[j] == orig[orig.len() - 1 - j],
            named_view(pairs@) == name_pairs(orig).take(pairs.len() as int),
        decreases rev.len(),
    {
        let ghost m = rev.len();
        let ghost before = rev@;
        let p = rev.pop().unwrap();
        proof {
            assert(before[m - 1] == p);
            assert(p == orig[pairs.len() as int]);
            assert forall|j: int| 0 <= j < rev.len() implies #[trigger] rev@[j] == orig[orig.len() - 1 - j] by {
                assert(rev@[j] == before[j]);
            }
        }
        let name = p.get_name().clone();
        let ghost old_pairs = named_view(pairs@);
        pairs.push((name, p));
        proof {
            assert(named_view(pairs@) =~= old_pairs.push((name_of(part_view(p)), p)));
            assert(name_pairs(orig).take(pairs.len() as int) =~= name_pairs(orig).take(pairs.len() - 1).push(
                (name_of(part_view(p)), p),
            ));
        }
    }
    proof {
        assert(name_pairs(orig).take(orig.len() as int) =~= name_pairs(orig));
    }
    let sorted = sort_by_name(pairs);
    let mut out: Vec<PackPart> = Vec::new();
    let mut srt = sorted;
    let ghost sv = named_view(srt@);
    let mut back: Vec<PackPart> = Vec::new();
    while srt.len() > 0
        invariant
            named_view(srt@) == sv.take(srt.len() as int),
            sv.len() == srt.len() + back.len(),
            forall|j: int| 0 <= j < back.len() ==> #[trigger] back@[j] == sv[sv.len() - 1 - j].1,
        decreases srt.len(),
    {
        let ghost n = srt.len();
        let ghost before = srt@;
        let e = srt.pop().unwrap();
        proof {
            assert(before[n - 1] == e);
            assert(named_view(before)[n - 1] == (e.0@, e.1));
            assert(named_view(srt@) =~= sv.take(n - 1));
        }
        back.push(e.1);
    }
    while back.len() > 0
        invariant
            sv.len() == out.len() + back.len(),
            forall|j: int| 0 <= j < back.len() ==> #[trigger] back@[j] == sv[sv.len() - 1 - j].1,
            out@ == pair_values(sv).take(out.len() as int),
        decreases back.len(),
    {
        let ghost m = back.len();
        let ghost before = back@;
        let p = back.pop().unwrap();
        proof {
            assert(before[m - 1] == p);
            assert forall|j: int| 0 <= j < back.len() implies #[trigger] back@[j] == sv[sv.len() - 1 - j].1 by {
                assert(back@[j] == before[j]);
            }
        }
        let ghost old_out = out@;
        out.push(p);
        proof {
            assert(out@ =~= pair_values(sv).take(out.len() as int));
        }
    }
    proof {
        assert(pair_values(sv).take(sv.len() as int) =~= pair_values(sv));
    }
    out
}

/// The manifest of a pack read from its addon folders: the required and the
/// optional addons, each ordered by name, and as pack checksum the SHA-1 of
/// the addons' checksums, the required ones first.
pub fn manifest_from_parts(name: &str, required: Vec<PackPart>, optional: Vec<PackPart>) -> (r:
    PackManifest)
    ensures
        r.name@ == name@,
        r.required_addons@ == pair_values(by_name(name_pairs(required@))),
        r.optional_addons@ == pair_values(by_name(name_pairs(optional@))),
        r.pack_checksum@ == sha1_of(
            parts_checksums(r.required_addons@) + parts_checksums(r.optional_addons@),
        ),
{
    let required_addons = sort_parts(required);
    let optional_addons = sort_parts(optional);
    let mut buf: Vec<u8> = Vec::new();
    let mut i: usize = 0;
    proof {
        assert(required_addons@.take(0) =~= Seq::<PackPart>::empty());
    }
    while i < required_addons.len()
        invariant
            i <= required_addons.len(),
            buf@ == parts_checksums(required_addons@.take(i as int)),
        decreases required_addons.len() - i,
    {
        let ghost before = buf@;
        let c = required_addons[i].get_checksum();
        let mut k: usize = 0;
        while k < c.len()
            invariant
                k <= c@.len(),
                buf@ == before + c@.take(k as int),
            decreases c.len() - k,
        {
            buf.push(c[k]);
            proof {
                assert(c@.take(k + 1) =~= c@.take(k as int).push(c@[k as int]));
                assert(buf@ =~= before + c@.take(k + 1));
            }
            k = k + 1;
        }
        proof {
            assert(c@.take(k as int) =~= c@);
            assert(required_addons@.take(i + 1).drop_last() =~= required_addons@.take(i as int));
            assert(required_addons@.take(i + 1).last() == required_addons@[i as int]);
        }
        i = i + 1;
    }
    proof {
        assert(required_addons@.take(required_addons.len() as int) =~= required_addons@);
        assert(optional_addons@.take(0) =~= Seq::<PackPart>::empty());
        assert(buf@ =~= parts_checksums(required_addons@) + parts_checksums(optional_addons@.take(0)));
    }
    let ghost head = parts_checksums(required_addons@);
    let mut j: usize = 0;
    while j < optional_addons.len()
        invariant
            j <= optional_addons.len(),
            buf@ == head + parts_checksums(optional_addons@.take(j as int)),
        decreases optional_addons.len() - j,
    {
        let ghost before = buf@;
        let c = optional_addons[j].get_checksum();
        let mut k: usize = 0;
        while k < c.len()
            invariant
                k <= c@.len(),
                buf@ == before + c@.take(k as int),
            decreases c.len() - k,
        {
            buf.push(c[k]);
            proof {
                assert(c@.take(k + 1) =~= c@.take(k as int).push(c@[k as int]));
                assert(buf@ =~= before + c@.take(k + 1));
            }
            k = k + 1;
        }
        proof {
            assert(c@.take(k as int) =~= c@);
            assert(optional_addons@.take(j + 1).drop_last() =~= optional_addons@.take(j as int));
            assert(optional_addons@.take(j + 1).last() == optional_addons@[j as int]);
            assert(buf@ =~= head + parts_checksums(optional_addons@.take(j + 1)));
        }
        j = j + 1;
    }
    proof {
        assert(optional_addons@.take(optional_addons.len() as int) =~= optional_addons@);
    }
    let pack_checksum = sha1_digest(buf.as_slice());
    PackManifest {
        name: crate::text::to_owned_string(name),
        pack_checksum,
        required_addons,
        optional_addons,
    }
}

} // verus!
