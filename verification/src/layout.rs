//! The layout version of a repository: which shape its files take on disk
//! and in the published tree.
use vstd::prelude::*;

use crate::models::{error_view, ErrorV, PammError};
use crate::paths::{join_path, join_spec};

verus! {

/// The layout this library reads and writes, each pack in a folder of its
/// own. The first layout kept every pack's files side by side.
pub const CURRENT_LAYOUT_VERSION: u64 = 2;

/// The layout a repository is in, given the version it records: one that
/// records none is in the first layout.
pub open spec fn layout_version(recorded: Option<u64>) -> u64 {
    match recorded {
        Some(v) => v,
        None => 1,
    }
}

/// The layout a repository is in, given the version it records (see
/// [`layout_version`]).
pub fn recorded_layout_version(recorded: Option<u64>) -> (r: u64)
    ensures
        r == layout_version(recorded),
{
    match recorded {
        Some(v) => v,
        None => 1,
    }
}

/// Refuses a remote whose published tree is not in the current layout: its
/// server was migrated, or not yet, and the tree was not rebuilt. `published`
/// is the version the remote publishes, `None` where it publishes none.
pub fn verify_remote_version(published: Option<u64>) -> (r: Result<(), PammError>)
    ensures
        r is Ok <==> layout_version(published) == CURRENT_LAYOUT_VERSION,
        r matches Err(e) ==> error_view(e) == ErrorV::RemoteLayoutMismatch(
            layout_version(published),
            CURRENT_LAYOUT_VERSION,
        ),
{
    let found = recorded_layout_version(published);
    if found == CURRENT_LAYOUT_VERSION {
        Ok(())
    } else {
        Err(PammError::RemoteLayoutMismatch { found, expected: CURRENT_LAYOUT_VERSION })
    }
}

/// Whether a repository that records `recorded` is in an older layout than
/// the current one and is migrated when opened.
pub fn needs_migration(recorded: Option<u64>) -> (r: bool)
    ensures
        r == (layout_version(recorded) < CURRENT_LAYOUT_VERSION),
{
    recorded_layout_version(recorded) < CURRENT_LAYOUT_VERSION
}

/// The moves, source then destination, relative to the repository, that
/// bring pack `pack` from the first layout to the current one. The first
/// layout kept `<pack>.pack.config.json`, a client's
/// `<pack>.pack.settings.json` and the folder `<pack>_pack_addons` (with a
/// client's `indexes` inside it) side by side; the current one keeps them as
/// `pack.config.json`, `pack.settings.json`, `indexes` and `addons` in the
/// folder `<pack>`. The indexes leave the addons' folder before it moves.
pub open spec fn pack_moves(pack: Seq<char>, client: bool) -> Seq<(Seq<char>, Seq<char>)> {
    let config = (pack + ".pack.config.json"@, join_spec(pack, "pack.config.json"@));
    let settings = (pack + ".pack.settings.json"@, join_spec(pack, "pack.settings.json"@));
    let indexes = (join_spec(pack + "_pack_addons"@, "indexes"@), join_spec(pack, "indexes"@));
    let addons = (pack + "_pack_addons"@, join_spec(pack, "addons"@));
    if client {
        seq![config, settings, indexes, addons]
    } else {
        seq![config, addons]
    }
}

/// The moves of the packs `packs`, pack after pack.
pub open spec fn migration_moves_spec(packs: Seq<Seq<char>>, client: bool) -> Seq<(Seq<char>, Seq<char>)>
    decreases packs.len(),
{
    if packs.len() == 0 {
        Seq::empty()
    } else {
        migration_moves_spec(packs.drop_last(), client) + pack_moves(packs.last(), client)
    }
}

/// The views of a list of moves.
pub open spec fn moves_view(moves: Seq<(String, String)>) -> Seq<(Seq<char>, Seq<char>)> {
    Seq::new(moves.len(), |i: int| (moves[i].0@, moves[i].1@))
}

fn suffixed(pack: &str, suffix: &str) -> (r: String)
    ensures
        r@ == pack@ + suffix@,
{
    let mut r = crate::text::to_owned_string(pack);
    r.append(suffix);
    r
}

/// The moves that bring the packs `packs` of a repository, a client's
/// (`client`) or a server's, from the first layout to the current one (see
/// [`pack_moves`]), pack after pack.
pub fn migration_moves(packs: &Vec<String>, client: bool) -> (r: Vec<(String, String)>)
    ensures
        moves_view(r@) == migration_moves_spec(
            Seq::new(packs@.len(), |i: int| packs@[i]@),
            client,
        ),
{
    let ghost names = Seq::new(packs@.len(), |i: int| packs@[i]@);
    let mut r: Vec<(String, String)> = Vec::new();
    let mut i: usize = 0;
    while i < packs.len()
        invariant
            i <= packs.len(),
            names == Seq::new(packs@.len(), |i: int| packs@[i]@),
            moves_view(r@) == migration_moves_spec(names.take(i as int), client),
        decreases packs.len() - i,
    {
        let pack = packs[i].as_str();
        let ghost before = r@;
        let config = (suffixed(pack, ".pack.config.json"), join_path(pack, "pack.config.json"));
        let addons = (suffixed(pack, "_pack_addons"), join_path(pack, "addons"));
        r.push(config);
        if client {
            let settings = (suffixed(pack, ".pack.settings.json"), join_path(pack, "pack.settings.json"));
            let old_addons = suffixed(pack, "_pack_addons");
            let indexes = (join_path(old_addons.as_str(), "indexes"), join_path(pack, "indexes"));
            r.push(settings);
            r.push(indexes);
        }
        r.push(addons);
        proof {
            assert(names.take(i + 1).drop_last() =~= names.take(i as int));
            assert(names.take(i + 1).last() == pack@);
            assert(moves_view(r@) =~= moves_view(before) + pack_moves(pack@, client));
        }
        i = i + 1;
    }
    proof {
        assert(names.take(packs.len() as int) =~= names);
    }
    r
}

} // verus!
