//! Patching a PBO archive in place: which byte ranges of the new archive to
//! request, how the request names them, and where each inner file of the
//! new archive comes from.
use vstd::prelude::*;

use crate::manifest::{bytes_eq, pbo_parts_view, PboPartV};
use crate::pack_diff::{bytes_seqs, has_checksum, required_parts_spec, PBOModification};
use crate::text::push_char;

verus! {

/// The decimal digit `d` (below ten).
pub open spec fn digit(d: nat) -> char {
    if d == 0 {
        '0'
    } else if d == 1 {
        '1'
    } else if d == 2 {
        '2'
    } else if d == 3 {
        '3'
    } else if d == 4 {
        '4'
    } else if d == 5 {
        '5'
    } else if d == 6 {
        '6'
    } else if d == 7 {
        '7'
    } else if d == 8 {
        '8'
    } else {
        '9'
    }
}

/// The decimal notation of `n`, without leading zeros.
pub open spec fn decimal(n: nat) -> Seq<char>
    decreases n,
{
    if n < 10 {
        seq![digit(n)]
    } else {
        decimal(n / 10).push(digit(n % 10))
    }
}

/// Appends the decimal notation of `n` to `s`.
pub fn push_decimal(s: &mut String, n: u64)
    ensures
        final(s)@ == old(s)@ + decimal(n as nat),
    decreases n,
{
    if n >= 10 {
        push_decimal(s, n / 10);
    }
    let d = n % 10;
    let c = if d == 0 {
        '0'
    } else if d == 1 {
        '1'
    } else if d == 2 {
        '2'
    } else if d == 3 {
        '3'
    } else if d == 4 {
        '4'
    } else if d == 5 {
        '5'
    } else if d == 6 {
        '6'
    } else if d == 7 {
        '7'
    } else if d == 8 {
        '8'
    } else {
        '9'
    };
    push_char(s, c);
    proof {
        if n >= 10 {
            assert(final(s)@ =~= old(s)@ + decimal((n / 10) as nat).push(digit((n % 10) as nat)));
        } else {
            assert(final(s)@ =~= old(s)@ + seq![digit(n as nat)]);
        }
    }
}

/// Whether the modification requires the part with checksum `c` from the
/// server.
pub open spec fn is_required(required_parts: Seq<Seq<u8>>, c: Seq<u8>) -> bool {
    required_parts.contains(c)
}

/// Whether part `p` is fetched from the server: the modification requires
/// it and it holds at least one byte (an empty part needs no request).
pub open spec fn is_fetched_part(required_parts: Seq<Seq<u8>>, p: PboPartV) -> bool {
    is_required(required_parts, p.checksum) && p.length > 0
}

/// The byte ranges, inclusive at both ends as the request states them, of
/// the parts of `order` that are fetched: from the part's first byte in the
/// archive (its start past the data offset `blob_offset`) to its last byte.
pub open spec fn part_ranges(
    order: Seq<PboPartV>,
    required_parts: Seq<Seq<u8>>,
    blob_offset: nat,
) -> Seq<(nat, nat)>
    decreases order.len(),
{
    if order.len() == 0 {
        Seq::empty()
    } else {
        let before = part_ranges(order.drop_last(), required_parts, blob_offset);
        let p = order.last();
        if is_fetched_part(required_parts, p) {
            before.push(
                ((p.start_offset + blob_offset) as nat, (p.start_offset + blob_offset + p.length - 1) as nat),
            )
        } else {
            before
        }
    }
}

/// The byte ranges to request for a PBO modification: the whole header (up
/// to the byte before the data), then the ranges of the parts to fetch.
pub open spec fn fetch_ranges(
    order: Seq<PboPartV>,
    required_parts: Seq<Seq<u8>>,
    blob_offset: nat,
) -> Seq<(nat, nat)> {
    seq![(0nat, (blob_offset - 1) as nat)] + part_ranges(order, required_parts, blob_offset)
}

/// Whether every range of the modification can be computed in 64 bits: the
/// data starts after a header of at least one byte, and every part ends
/// within the 64-bit range.
pub open spec fn ranges_fit(order: Seq<PboPartV>, blob_offset: u64) -> bool {
    &&& blob_offset >= 1
    &&& forall|i: int|
        0 <= i < order.len() ==> #[trigger] order[i].start_offset + blob_offset + order[i].length
            <= u64::MAX
}

/// The view of a sequence of ranges.
pub open spec fn ranges_view(r: Seq<(u64, u64)>) -> Seq<(nat, nat)> {
    Seq::new(r.len(), |i: int| (r[i].0 as nat, r[i].1 as nat))
}

/// A range as the request writes it: `<from>-<to>`.
pub open spec fn range_text(r: (nat, nat)) -> Seq<char> {
    decimal(r.0) + seq!['-'] + decimal(r.1)
}

/// Ranges separated by `, `.
pub open spec fn ranges_text(rs: Seq<(nat, nat)>) -> Seq<char>
    decreases rs.len(),
{
    if rs.len() == 0 {
        Seq::empty()
    } else if rs.len() == 1 {
        range_text(rs[0])
    } else {
        ranges_text(rs.drop_last()) + seq![',', ' '] + range_text(rs.last())
    }
}

/// The value of the `Range` header that requests `rs`: `bytes=` followed by
/// the ranges.
pub open spec fn range_header_spec(rs: Seq<(nat, nat)>) -> Seq<char> {
    seq!['b', 'y', 't', 'e', 's', '='] + ranges_text(rs)
}

/// Where an inner file of the patched archive comes from.
#[derive(Debug, PartialEq, Eq)]
pub enum PartSource {
    /// The next part of the server's response.
    Fetched,
    /// The file of this name in the archive being patched.
    FromArchive(String),
    /// An empty file the old archive lacks: nothing to fetch or copy.
    Empty,
}

/// Model of a [`PartSource`].
pub enum SourceV {
    Fetched,
    FromArchive(Seq<char>),
    Empty,
}

/// The model of a part source.
pub open spec fn source_view(s: PartSource) -> SourceV {
    match s {
        PartSource::Fetched => SourceV::Fetched,
        PartSource::FromArchive(n) => SourceV::FromArchive(n@),
        PartSource::Empty => SourceV::Empty,
    }
}

/// Where each part of `order` comes from, in order: required parts are
/// fetched (or, when empty, written as nothing), the others are taken from
/// the old archive by name.
pub open spec fn part_sources(order: Seq<PboPartV>, required_parts: Seq<Seq<u8>>) -> Seq<SourceV> {
    Seq::new(
        order.len(),
        |i: int|
            if is_fetched_part(required_parts, order[i]) {
                SourceV::Fetched
            } else if is_required(required_parts, order[i].checksum) {
                SourceV::Empty
            } else {
                SourceV::FromArchive(order[i].name)
            },
    )
}

/// Whether `c` is one of the required checksums.
fn requires_part(required: &Vec<Vec<u8>>, c: &Vec<u8>) -> (r: bool)
    ensures
        r == is_required(bytes_seqs(required@), c@),
{
    let mut i: usize = 0;
    while i < required.len()
        invariant
            i <= required.len(),
            forall|j: int| 0 <= j < i ==> required@[j]@ != c@,
        decreases required.len() - i,
    {
        if bytes_eq(&required[i], c) {
            assert(bytes_seqs(required@)[i as int] == c@);
            return true;
        }
        i = i + 1;
    }
    proof {
        if bytes_seqs(required@).contains(c@) {
            let k = choose|k: int| 0 <= k < bytes_seqs(required@).len() && bytes_seqs(required@)[k] == c@;
            assert(required@[k]@ == c@);
        }
    }
    false
}

impl PBOModification {
    /// Whether the byte ranges of this modification can be computed (see
    /// [`ranges_fit`]).
    pub fn ranges_fit(&self) -> (r: bool)
        ensures
            r == ranges_fit(pbo_parts_view(self.new_order@), self.blob_offset),
    {
        if self.blob_offset < 1 {
            return false;
        }
        let mut i: usize = 0;
        while i < self.new_order.len()
            invariant
                i <= self.new_order.len(),
                self.blob_offset >= 1,
                forall|j: int|
                    0 <= j < i ==> #[trigger] pbo_parts_view(self.new_order@)[j].start_offset
                        + self.blob_offset + pbo_parts_view(self.new_order@)[j].length <= u64::MAX,
            decreases self.new_order.len() - i,
        {
            let p = &self.new_order[i];
            if p.start_offset > u64::MAX - self.blob_offset {
                assert(pbo_parts_view(self.new_order@)[i as int].start_offset == p.start_offset);
                return false;
            }
            let start = p.start_offset + self.blob_offset;
            if start > u64::MAX - (p.length as u64) {
                assert(pbo_parts_view(self.new_order@)[i as int].length == p.length);
                return false;
            }
            i = i + 1;
        }
        true
    }

    /// The byte ranges of the new archive to request (see
    /// [`fetch_ranges`]): its header, then each required part in the new
    /// order.
    pub fn fetch_ranges(&self) -> (r: Vec<(u64, u64)>)
        requires
            ranges_fit(pbo_parts_view(self.new_order@), self.blob_offset),
        ensures
            ranges_view(r@) == fetch_ranges(
                pbo_parts_view(self.new_order@),
                bytes_seqs(self.required_parts@),
                self.blob_offset as nat,
            ),
    {
        let ghost order = pbo_parts_view(self.new_order@);
        let ghost req = bytes_seqs(self.required_parts@);
        let mut r: Vec<(u64, u64)> = Vec::new();
        r.push((0, self.blob_offset - 1));
        proof {
            assert(ranges_view(r@) =~= seq![(0nat, (self.blob_offset - 1) as nat)] + part_ranges(
                order.take(0),
                req,
                self.blob_offset as nat,
            ));
        }
        let mut i: usize = 0;
        while i < self.new_order.len()
            invariant
                i <= self.new_order.len(),
                order == pbo_parts_view(self.new_order@),
                req == bytes_seqs(self.required_parts@),
                ranges_fit(order, self.blob_offset),
                ranges_view(r@) == seq![(0nat, (self.blob_offset - 1) as nat)] + part_ranges(
                    order.take(i as int),
                    req,
                    self.blob_offset as nat,
                ),
            decreases self.new_order.len() - i,
        {
            let ghost t = order.take(i + 1);
            proof {
                assert(t.drop_last() =~= order.take(i as int));
                assert(t.last() == order[i as int]);
            }
            let p = &self.new_order[i];
            if requires_part(&self.required_parts, &p.checksum) && p.length > 0 {
                proof {
                    assert(order[i as int].start_offset + self.blob_offset + order[i as int].length <= u64::MAX);
                }
                let start = p.start_offset + self.blob_offset;
                let ghost before = ranges_view(r@);
                r.push((start, start + (p.length as u64 - 1)));
                proof {
                    assert(ranges_view(r@) =~= before.push((start as nat, (start + p.length - 1) as nat)));
                }
            }
            i = i + 1;
        }
        proof {
            assert(order.take(self.new_order.len() as int) =~= order);
        }
        r
    }

    /// Where each inner file of the patched archive comes from, in the new
    /// order (see [`part_sources`]).
    pub fn part_sources(&self) -> (r: Vec<PartSource>)
        ensures
            r@.len() == self.new_order@.len(),
            forall|i: int|
                0 <= i < r@.len() ==> source_view(#[trigger] r@[i]) == part_sources(
                    pbo_parts_view(self.new_order@),
                    bytes_seqs(self.required_parts@),
                )[i],
    {
        let mut r: Vec<PartSource> = Vec::new();
        let mut i: usize = 0;
        while i < self.new_order.len()
            invariant
                i <= self.new_order.len(),
                r@.len() == i,
                forall|j: int|
                    0 <= j < i ==> source_view(#[trigger] r@[j]) == part_sources(
                        pbo_parts_view(self.new_order@),
                        bytes_seqs(self.required_parts@),
                    )[j],
            decreases self.new_order.len() - i,
        {
            let p = &self.new_order[i];
            if requires_part(&self.required_parts, &p.checksum) {
                if p.length > 0 {
                    r.push(PartSource::Fetched);
                } else {
                    r.push(PartSource::Empty);
                }
            } else {
                r.push(PartSource::FromArchive(p.name.clone()));
            }
            i = i + 1;
        }
        r
    }
}

/// The value of the `Range` header requesting `ranges` (see
/// [`range_header_spec`]).
pub fn range_header(ranges: &Vec<(u64, u64)>) -> (r: String)
    ensures
        r@ == range_header_spec(ranges_view(ranges@)),
{
    let mut r = crate::text::to_owned_string("bytes=");
    proof {
        reveal_strlit("bytes=");
        assert(r@ =~= seq!['b', 'y', 't', 'e', 's', '='] + ranges_text(ranges_view(ranges@).take(0)));
    }
    let ghost rs = ranges_view(ranges@);
    let mut i: usize = 0;
    while i < ranges.len()
        invariant
            i <= ranges.len(),
            rs == ranges_view(ranges@),
            r@ == seq!['b', 'y', 't', 'e', 's', '='] + ranges_text(rs.take(i as int)),
        decreases ranges.len() - i,
    {
        let ghost t = rs.take(i + 1);
        let ghost before = r@;
        proof {
            assert(t.drop_last() =~= rs.take(i as int));
            assert(t.last() == rs[i as int]);
        }
        if i > 0 {
            push_char(&mut r, ',');
            push_char(&mut r, ' ');
        }
        push_decimal(&mut r, ranges[i].0);
        push_char(&mut r, '-');
        push_decimal(&mut r, ranges[i].1);
        proof {
            if i == 0 {
                assert(t =~= seq![rs[0]]);
                assert(r@ =~= before + range_text(rs[0]));
                assert(rs.take(0) =~= Seq::<(nat, nat)>::empty());
            } else {
                assert(r@ =~= before + seq![',', ' '] + range_text(rs[i as int]));
            }
        }
        i = i + 1;
    }
    proof {
        assert(rs.take(ranges.len() as int) =~= rs);
    }
    r
}

/// Whether a part comes from the server.
pub open spec fn is_fetched(s: SourceV) -> bool {
    s is Fetched
}

/// The requested ranges match the parts taken from the response: one range
/// for the header, and as many further ranges as there are fetched parts.
pub proof fn lemma_ranges_match_fetched_parts(
    order: Seq<PboPartV>,
    required_parts: Seq<Seq<u8>>,
    blob_offset: nat,
)
    ensures
        fetch_ranges(order, required_parts, blob_offset).len() == 1 + part_sources(
            order,
            required_parts,
        ).filter(|s: SourceV| is_fetched(s)).len(),
    decreases order.len(),
{
    let f = |s: SourceV| is_fetched(s);
    if order.len() == 0 {
        assert(part_sources(order, required_parts) =~= Seq::<SourceV>::empty());
        assert(Seq::<SourceV>::empty().filter(f) =~= Seq::<SourceV>::empty()) by {
            reveal(Seq::filter);
        }
    } else {
        lemma_ranges_match_fetched_parts(order.drop_last(), required_parts, blob_offset);
        let ps = part_sources(order, required_parts);
        let before = part_sources(order.drop_last(), required_parts);
        assert(ps =~= before.push(ps.last()));
        before.lemma_filter_push(ps.last(), f);
        assert(fetch_ranges(order, required_parts, blob_offset) =~= seq![(0nat, (blob_offset - 1) as nat)]
            + part_ranges(order, required_parts, blob_offset));
        assert(fetch_ranges(order.drop_last(), required_parts, blob_offset) =~= seq![(0nat, (blob_offset - 1) as nat)]
            + part_ranges(order.drop_last(), required_parts, blob_offset));
    }
}

proof fn lemma_required_contains(old: Seq<PboPartV>, new: Seq<PboPartV>, c: Seq<u8>)
    ensures
        required_parts_spec(old, new).contains(c) <==> (!has_checksum(old, c) && exists|j: int|
            0 <= j < new.len() && #[trigger] new[j].checksum == c),
    decreases new.len(),
{
    if new.len() > 0 {
        let before = required_parts_spec(old, new.drop_last());
        lemma_required_contains(old, new.drop_last(), c);
        if exists|j: int| 0 <= j < new.drop_last().len() && #[trigger] new.drop_last()[j].checksum == c {
            let j = choose|j: int| 0 <= j < new.drop_last().len() && #[trigger] new.drop_last()[j].checksum == c;
            assert(new[j].checksum == c);
        }
        if exists|j: int| 0 <= j < new.len() && #[trigger] new[j].checksum == c {
            let j = choose|j: int| 0 <= j < new.len() && #[trigger] new[j].checksum == c;
            if j < new.len() - 1 {
                assert(new.drop_last()[j].checksum == c);
            }
        }
        if !has_checksum(old, new.last().checksum) {
            let after = before.push(new.last().checksum);
            assert(after[before.len() as int] == new.last().checksum);
            if before.contains(c) {
                let k = choose|k: int| 0 <= k < before.len() && before[k] == c;
                assert(after[k] == c);
            }
            if after.contains(c) && c != new.last().checksum {
                let k = choose|k: int| 0 <= k < after.len() && after[k] == c;
                assert(before[k] == c);
            }
            assert(new[new.len() - 1] == new.last());
        }
    }
}

/// A PBO patch fetches exactly the non-empty parts of the new archive whose
/// checksum no part of the old archive has, writes the empty ones as
/// nothing, and takes every other part from the old archive.
pub proof fn lemma_only_changed_parts_fetched(old: Seq<PboPartV>, new: Seq<PboPartV>)
    ensures
        forall|i: int|
            0 <= i < new.len() ==> {
                &&& (#[trigger] part_sources(new, required_parts_spec(old, new))[i] is Fetched
                    <==> !has_checksum(old, new[i].checksum) && new[i].length > 0)
                &&& (part_sources(new, required_parts_spec(old, new))[i] is Empty
                    <==> !has_checksum(old, new[i].checksum) && new[i].length == 0)
            },
{
    assert forall|i: int| 0 <= i < new.len() implies {
        &&& (#[trigger] part_sources(new, required_parts_spec(old, new))[i] is Fetched
            <==> !has_checksum(old, new[i].checksum) && new[i].length > 0)
        &&& (part_sources(new, required_parts_spec(old, new))[i] is Empty
            <==> !has_checksum(old, new[i].checksum) && new[i].length == 0)
    } by {
        lemma_required_contains(old, new, new[i].checksum);
    }
}

} // verus!
