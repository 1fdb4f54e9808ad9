//! The in-memory model of a repository on disk: its configuration, its packs
//! and, for a client, the user's settings; and the operations that decide on
//! them.
use vstd::prelude::*;

use crate::layout::{layout_version, verify_remote_version, CURRENT_LAYOUT_VERSION};
use crate::paths::{join_path, join_spec};
use crate::launch::{
    executable_args, executable_launch_args, lines_text, preset_file_name, preset_file_name_spec,
    preset_launch_url, preset_launch_url_spec, preset_lines, render_preset, views, LaunchAction,
    LaunchMode, LaunchParams,
};
use crate::manifest::PackManifest;
use crate::pack_diff::{manifest_diff_spec, pack_diff_view, PackDiff, PackDiffV};
use crate::models::{
    error_view, fresh_names, ErrorV, addon_enabled, addon_lookup, AddonSettings, addon_names, contains_str, copy_strings, eq_ignore_ascii_case, names_match,
    str_eq, str_views, PackConfig, PackUserSettings, PammError, RepoConfig, RepoUserSettings,
};

verus! {

/// A pack as found in the repository: its configuration and, where present,
/// the user's settings for it.
#[derive(Debug)]
pub struct PackEntry {
    pub config: PackConfig,
    pub settings: Option<PackUserSettings>,
}

/// A repository: where it lives, its configuration, and its packs.
#[derive(Debug)]
pub struct RepoHandle {
    pub repo_path: String,
    pub repo_config: RepoConfig,
    pub packs: Vec<PackEntry>,
}

/// The outcome of looking a pack up.
pub enum PackLookup {
    /// Found at this position of the repository's packs.
    Found(int),
    /// Not registered in the repository configuration.
    NotRegistered,
    /// Registered (or local) but without a configuration.
    NoConfig,
}

/// The position of the first pack whose name is `name`, if any.
pub open spec fn pack_position(packs: Seq<PackEntry>, name: Seq<char>) -> Option<int>
    decreases packs.len(),
{
    if packs.len() == 0 {
        None
    } else if packs[0].config.name@ == name {
        Some(0)
    } else {
        match pack_position(packs.drop_first(), name) {
            Some(i) => Some(i + 1),
            None => None,
        }
    }
}

/// Whether `e` is the error that a failed lookup of `name` reports.
pub open spec fn lookup_error(e: PammError, name: Seq<char>, l: PackLookup) -> bool {
    match l {
        PackLookup::NotRegistered => e matches PammError::PackNotFound(n) && n@ == name,
        PackLookup::NoConfig => e matches PammError::PackConfigMissing(n) && n@ == name,
        PackLookup::Found(_) => false,
    }
}

/// `pack_position` finds the first pack with the name.
pub proof fn lemma_pack_position(packs: Seq<PackEntry>, name: Seq<char>)
    ensures
        pack_position(packs, name) matches Some(i) ==> 0 <= i < packs.len() && packs[i].config.name@
            == name && forall|j: int| 0 <= j < i ==> packs[j].config.name@ != name,
        pack_position(packs, name) is None ==> forall|j: int|
            0 <= j < packs.len() ==> packs[j].config.name@ != name,
    decreases packs.len(),
{
    if packs.len() > 0 {
        lemma_pack_position(packs.drop_first(), name);
        assert forall|j: int| 1 <= j < packs.len() implies packs[j] == packs.drop_first()[j - 1] by {}
    }
}

proof fn lemma_pack_position_at(packs: Seq<PackEntry>, name: Seq<char>, k: int)
    requires
        0 <= k < packs.len(),
        packs[k].config.name@ == name,
        forall|j: int| 0 <= j < k ==> packs[j].config.name@ != name,
    ensures
        pack_position(packs, name) == Some(k),
    decreases k,
{
    if k > 0 {
        assert forall|j: int| 0 <= j < k - 1 implies packs.drop_first()[j].config.name@ != name by {
            assert(packs.drop_first()[j] == packs[j + 1]);
        }
        lemma_pack_position_at(packs.drop_first(), name, k - 1);
    }
}

/// Whether `name` matches one of the local pack names `locals` (up to ASCII case).
pub open spec fn local_in(locals: Seq<String>, name: Seq<char>) -> bool {
    exists|i: int| 0 <= i < locals.len() && eq_ignore_ascii_case(#[trigger] locals[i]@, name)
}

/// Whether `name` matches one of the local pack names `locals` (up to ASCII case).
pub fn is_local_in(locals: &Vec<String>, name: &str) -> (r: bool)
    ensures
        r == local_in(locals@, name@),
{
    let mut i: usize = 0;
    while i < locals.len()
        invariant
            i <= locals.len(),
            forall|j: int| 0 <= j < i ==> !eq_ignore_ascii_case(#[trigger] locals@[j]@, name@),
        decreases locals.len() - i,
    {
        if names_match(locals[i].as_str(), name) {
            return true;
        }
        i = i + 1;
    }
    false
}

/// The outcome of following parent links from a pack.
pub enum WalkV {
    /// The walk ended at a pack without parent, with this result.
    Done(Seq<Seq<char>>),
    /// Looking up the named pack failed.
    Failed(Seq<char>, PackLookup),
    /// The walk did not end within the steps allowed.
    Exhausted,
}

impl RepoHandle {
    /// Positions reported by lookups are positions of packs.
    pub proof fn lemma_lookup_in_range(&self, name: Seq<char>)
        ensures
            self.read_lookup(name) matches PackLookup::Found(i) ==> 0 <= i < self.packs@.len()
                && self.packs@[i].config.name@ == name,
            self.registered_lookup(name) matches PackLookup::Found(i) ==> 0 <= i < self.packs@.len()
                && self.packs@[i].config.name@ == name,
    {
        lemma_pack_position(self.packs@, name);
    }

    /// Looks a pack up by name, registered or not.
    pub open spec fn read_lookup(&self, name: Seq<char>) -> PackLookup {
        match pack_position(self.packs@, name) {
            Some(i) => PackLookup::Found(i),
            None => PackLookup::NoConfig,
        }
    }

    /// Looks a registered pack up by name.
    pub open spec fn registered_lookup(&self, name: Seq<char>) -> PackLookup {
        if !str_views(self.repo_config.packs@).contains(name) {
            PackLookup::NotRegistered
        } else {
            self.read_lookup(name)
        }
    }

    /// The position of the pack named `name`, if present.
    pub fn find_pack(&self, name: &str) -> (r: Option<usize>)
        ensures
            r matches Some(i) ==> pack_position(self.packs@, name@) == Some(i as int) && i < self.packs@.len(),
            r is None ==> pack_position(self.packs@, name@) is None,
    {
        let mut i: usize = 0;
        while i < self.packs.len()
            invariant
                i <= self.packs.len(),
                forall|j: int| 0 <= j < i ==> self.packs@[j].config.name@ != name@,
            decreases self.packs.len() - i,
        {
            if str_eq(self.packs[i].config.name.as_str(), name) {
                proof {
                    lemma_pack_position_at(self.packs@, name@, i as int);
                }
                return Some(i);
            }
            i = i + 1;
        }
        proof {
            lemma_pack_position(self.packs@, name@);
            if pack_position(self.packs@, name@) is Some {
                let k = pack_position(self.packs@, name@)->Some_0;
                assert(self.packs@[k].config.name@ == name@);
            }
        }
        None
    }

    /// Reads a pack's configuration, whether or not the repository
    /// configuration registers the pack.
    pub fn read_pack_config(&self, name: &str) -> (r: Result<&PackConfig, PammError>)
        ensures
            self.read_lookup(name@) matches PackLookup::Found(i) ==> r matches Ok(c) && c
                == self.packs@[i].config,
            self.read_lookup(name@) !is Found ==> (r matches Err(e) && lookup_error(e, name@, self.read_lookup(name@))),
    {
        match self.find_pack(name) {
            Some(i) => Ok(&self.packs[i].config),
            None => Err(PammError::PackConfigMissing(crate::text::to_owned_string(name))),
        }
    }

    /// The configuration of a pack that the repository configuration registers.
    pub fn get_pack(&self, name: &str) -> (r: Result<&PackConfig, PammError>)
        ensures
            self.registered_lookup(name@) matches PackLookup::Found(i) ==> r matches Ok(c) && c
                == self.packs@[i].config,
            self.registered_lookup(name@) !is Found ==> (r matches Err(e) && lookup_error(e, name@, self.registered_lookup(name@))),
    {
        if !contains_str(&self.repo_config.packs, name) {
            return Err(PammError::PackNotFound(crate::text::to_owned_string(name)));
        }
        self.read_pack_config(name)
    }

    /// Looks a pack up when `locals` are the local packs: local packs bypass
    /// the registry, other packs must be registered.
    pub open spec fn lookup_in(&self, name: Seq<char>, locals: Seq<String>) -> PackLookup {
        if local_in(locals, name) {
            self.read_lookup(name)
        } else {
            self.registered_lookup(name)
        }
    }

    /// A pack's configuration when `locals` are the local packs (see
    /// [`RepoHandle::lookup_in`]).
    pub fn get_pack_in(&self, name: &str, locals: &Vec<String>) -> (r: Result<&PackConfig, PammError>)
        ensures
            self.lookup_in(name@, locals@) matches PackLookup::Found(i) ==> r matches Ok(c) && c
                == self.packs@[i].config,
            self.lookup_in(name@, locals@) !is Found ==> (r matches Err(e) && lookup_error(e, name@, self.lookup_in(name@, locals@))),
    {
        if is_local_in(locals, name) {
            self.read_pack_config(name)
        } else {
            self.get_pack(name)
        }
    }

    /// The packs from `name` up to its root ancestor, root first, following
    /// parent links for at most `fuel` steps.
    pub open spec fn chain_spec(&self, name: Seq<char>, locals: Seq<String>, fuel: nat) -> WalkV
        decreases fuel,
    {
        if fuel == 0 {
            WalkV::Exhausted
        } else {
            match self.lookup_in(name, locals) {
                PackLookup::Found(i) => match self.packs@[i].config.parent {
                    None => WalkV::Done(seq![name]),
                    Some(p) => match self.chain_spec(p@, locals, (fuel - 1) as nat) {
                        WalkV::Done(c) => WalkV::Done(c.push(name)),
                        other => other,
                    },
                },
                l => WalkV::Failed(name, l),
            }
        }
    }

    /// A completed chain ends with the pack itself and starts at a pack
    /// without parent, and each pack in it is the parent of the next.
    pub proof fn lemma_chain_shape(&self, name: Seq<char>, locals: Seq<String>, fuel: nat)
        ensures
            self.chain_spec(name, locals, fuel) matches WalkV::Done(c) ==> {
                &&& c.len() >= 1
                &&& c.last() == name
                &&& self.lookup_in(c[0], locals) matches PackLookup::Found(i) && self.packs@[i].config.parent is None
                &&& forall|k: int|
                    0 <= k < c.len() - 1 ==> (self.lookup_in(#[trigger] c[k + 1], locals) matches PackLookup::Found(i)
                        && self.packs@[i].config.parent matches Some(p) && p@ == c[k])
            },
        decreases fuel,
    {
        if fuel > 0 {
            if let PackLookup::Found(i) = self.lookup_in(name, locals) {
                if let Some(p) = self.packs@[i].config.parent {
                    self.lemma_chain_shape(p@, locals, (fuel - 1) as nat);
                    if let WalkV::Done(c) = self.chain_spec(p@, locals, (fuel - 1) as nat) {
                        let d = c.push(name);
                        assert(d[0] == c[0]);
                        assert forall|k: int| 0 <= k < d.len() - 1 implies (self.lookup_in(#[trigger] d[k + 1], locals) matches PackLookup::Found(j)
                            && self.packs@[j].config.parent matches Some(q) && q@ == d[k]) by {
                            if k < c.len() - 1 {
                                assert(d[k + 1] == c[k + 1] && d[k] == c[k]);
                            } else {
                                assert(d[k + 1] == name && d[k] == c.last());
                            }
                        }
                    }
                }
            }
        }
    }

    /// The parent links from `name` end (at a pack without parent, or at a
    /// pack that cannot be looked up) rather than going round a cycle.
    pub open spec fn chain_ends(&self, name: Seq<char>, locals: Seq<String>) -> bool {
        self.chain_spec(name, locals, (self.packs@.len() + 1) as nat) !is Exhausted
    }

    /// The packs from `pack_name` up to its root ancestor, root first and
    /// `pack_name` last, or the error of the first lookup that fails.
    pub fn collect_pack_chain_in(&self, pack_name: &str, locals: &Vec<String>) -> (r: Result<
        Vec<String>,
        PammError,
    >)
        requires
            self.chain_ends(pack_name@, locals@),
        ensures
            match self.chain_spec(pack_name@, locals@, (self.packs@.len() + 1) as nat) {
                WalkV::Done(c) => r matches Ok(v) && str_views(v@) == c,
                WalkV::Failed(n, l) => r matches Err(e) && lookup_error(e, n, l),
                WalkV::Exhausted => false,
            },
    {
        let ghost full = self.chain_spec(pack_name@, locals@, (self.packs@.len() + 1) as nat);
        let mut chain: Vec<String> = Vec::new();
        let mut current = crate::text::to_owned_string(pack_name);
        let ghost mut fuel: nat = (self.packs@.len() + 1) as nat;
        proof {
            assert(str_views(chain@).reverse() =~= Seq::<Seq<char>>::empty());
            match self.chain_spec(current@, locals@, fuel) {
                WalkV::Done(c) => {
                    assert(c + Seq::<Seq<char>>::empty() =~= c);
                },
                _ => {},
            }
        }
        loop
            invariant_except_break
                self.chain_spec(current@, locals@, fuel) !is Exhausted,
                full == match self.chain_spec(current@, locals@, fuel) {
                    WalkV::Done(c) => WalkV::Done(c + str_views(chain@).reverse()),
                    other => other,
                },
            invariant
                full == self.chain_spec(pack_name@, locals@, (self.packs@.len() + 1) as nat),
            ensures
                full == WalkV::Done(str_views(chain@).reverse()),
            decreases fuel,
        {
            proof {
                self.lemma_lookup_in_range(current@);
            }
            let pack = self.get_pack_in(current.as_str(), locals)?;
            let parent = match &pack.parent {
                Some(p) => Some(p.clone()),
                None => None,
            };
            let ghost old_chain = str_views(chain@);
            let ghost old_current = current@;
            match parent {
                Some(p) => {
                    chain.push(current);
                    current = p;
                    proof {
                        assert(str_views(chain@) =~= old_chain.push(old_current));
                        assert(str_views(chain@).reverse() =~= seq![old_current] + old_chain.reverse());
                        match self.chain_spec(current@, locals@, (fuel - 1) as nat) {
                            WalkV::Done(c) => {
                                assert(c.push(old_current) + old_chain.reverse() =~= c + (seq![old_current] + old_chain.reverse()));
                            },
                            _ => {},
                        }
                        fuel = (fuel - 1) as nat;
                    }
                },
                None => {
                    chain.push(current);
                    proof {
                        assert(str_views(chain@) =~= old_chain.push(old_current));
                        assert(seq![old_current] + old_chain.reverse() =~= str_views(chain@).reverse());
                    }
                    break;
                },
            }
        }
        let r = reversed(chain);
        Ok(r)
    }
}

/// `addons`.
pub open spec fn addons_dir_name() -> Seq<char> {
    seq!['a', 'd', 'd', 'o', 'n', 's']
}

/// The paths, relative to the repository, of the addons a pack contributes:
/// `<pack>/addons/<addon>` for every addon that is enabled, in declaration
/// order.
pub open spec fn own_addon_paths(
    pack: Seq<char>,
    addons: Seq<(String, AddonSettings)>,
    user_disabled: Seq<Seq<char>>,
    disable_optionals: bool,
) -> Seq<Seq<char>>
    decreases addons.len(),
{
    if addons.len() == 0 {
        Seq::empty()
    } else {
        let before = own_addon_paths(pack, addons.drop_last(), user_disabled, disable_optionals);
        if addon_enabled(addons.last().1, addons.last().0@, user_disabled, disable_optionals) {
            before.push(join_spec(join_spec(pack, addons_dir_name()), addons.last().0@))
        } else {
            before
        }
    }
}

/// Whether the path `p` is that of addon `i` of `addons`, an addon that is
/// loaded: a required one, or an optional one while optionals are on and the
/// user did not switch it off.
pub open spec fn loaded_addon_at(
    pack: Seq<char>,
    addons: Seq<(String, AddonSettings)>,
    user_disabled: Seq<Seq<char>>,
    disable_optionals: bool,
    p: Seq<char>,
    i: int,
) -> bool {
    &&& 0 <= i < addons.len()
    &&& p == join_spec(join_spec(pack, addons_dir_name()), addons[i].0@)
    &&& !addons[i].1.is_optional || (!disable_optionals && !user_disabled.contains(addons[i].0@))
}

proof fn lemma_own_addon_paths_member(
    pack: Seq<char>,
    addons: Seq<(String, AddonSettings)>,
    user_disabled: Seq<Seq<char>>,
    disable_optionals: bool,
    p: Seq<char>,
)
    ensures
        own_addon_paths(pack, addons, user_disabled, disable_optionals).contains(p) <==> exists|i: int|
            loaded_addon_at(pack, addons, user_disabled, disable_optionals, p, i),
    decreases addons.len(),
{
    if addons.len() == 0 {
        assert(own_addon_paths(pack, addons, user_disabled, disable_optionals) =~= Seq::<Seq<char>>::empty());
    } else {
        let init = addons.drop_last();
        let before = own_addon_paths(pack, init, user_disabled, disable_optionals);
        let r = own_addon_paths(pack, addons, user_disabled, disable_optionals);
        let k = addons.len() - 1;
        lemma_own_addon_paths_member(pack, init, user_disabled, disable_optionals, p);
        assert(addons.last() == addons[k]);
        if exists|i: int| loaded_addon_at(pack, init, user_disabled, disable_optionals, p, i) {
            let i = choose|i: int| loaded_addon_at(pack, init, user_disabled, disable_optionals, p, i);
            assert(init[i] == addons[i]);
            assert(loaded_addon_at(pack, addons, user_disabled, disable_optionals, p, i));
        }
        if exists|i: int| loaded_addon_at(pack, addons, user_disabled, disable_optionals, p, i) {
            let i = choose|i: int| loaded_addon_at(pack, addons, user_disabled, disable_optionals, p, i);
            if i < k {
                assert(init[i] == addons[i]);
                assert(loaded_addon_at(pack, init, user_disabled, disable_optionals, p, i));
            }
        }
        let q = join_spec(join_spec(pack, addons_dir_name()), addons.last().0@);
        if addon_enabled(addons.last().1, addons.last().0@, user_disabled, disable_optionals) {
            assert(r == before.push(q));
            assert(r[before.len() as int] == q);
            if before.contains(p) {
                let j = choose|j: int| 0 <= j < before.len() && before[j] == p;
                assert(r[j] == p);
            }
            if r.contains(p) && p != q {
                let j = choose|j: int| 0 <= j < r.len() && r[j] == p;
                assert(before[j] == p);
            }
            if p == q {
                assert(loaded_addon_at(pack, addons, user_disabled, disable_optionals, p, k));
            }
        } else {
            assert(r == before);
        }
    }
}

/// The paths resolved for a pack's own addons are exactly those of its
/// loaded addons: every required addon, and an optional one only while
/// optionals are on and the user did not switch it off. With optionals
/// disabled, every resolved path is that of a required addon.
pub proof fn lemma_own_addon_paths_loaded(
    pack: Seq<char>,
    addons: Seq<(String, AddonSettings)>,
    user_disabled: Seq<Seq<char>>,
    disable_optionals: bool,
)
    ensures
        forall|p: Seq<char>|
            #[trigger] own_addon_paths(pack, addons, user_disabled, disable_optionals).contains(p)
                <==> exists|i: int| loaded_addon_at(pack, addons, user_disabled, disable_optionals, p, i),
        disable_optionals ==> forall|p: Seq<char>|
            #[trigger] own_addon_paths(pack, addons, user_disabled, disable_optionals).contains(p)
                ==> exists|i: int|
                0 <= i < addons.len() && !addons[i].1.is_optional && p == join_spec(
                    join_spec(pack, addons_dir_name()),
                    #[trigger] addons[i].0@,
                ),
{
    assert forall|p: Seq<char>|
        #[trigger] own_addon_paths(pack, addons, user_disabled, disable_optionals).contains(p) <==> exists|i: int|
            loaded_addon_at(pack, addons, user_disabled, disable_optionals, p, i) by {
        lemma_own_addon_paths_member(pack, addons, user_disabled, disable_optionals, p);
    }
    if disable_optionals {
        assert forall|p: Seq<char>|
            #[trigger] own_addon_paths(pack, addons, user_disabled, disable_optionals).contains(p) implies exists|i: int|
                0 <= i < addons.len() && !addons[i].1.is_optional && p == join_spec(
                    join_spec(pack, addons_dir_name()),
                    #[trigger] addons[i].0@,
                ) by {
            let i = choose|i: int| loaded_addon_at(pack, addons, user_disabled, disable_optionals, p, i);
            assert(!addons[i].1.is_optional);
        }
    }
}

/// The resolved paths of a pack's own addons, in order and each once per
/// addon: the loaded addons (required ones, and optional ones while
/// optionals are on and the user did not switch them off), kept in the order
/// of the configuration, each turned into `<pack>/addons/<name>`.
pub proof fn lemma_own_addon_paths_in_order(
    pack: Seq<char>,
    addons: Seq<(String, AddonSettings)>,
    user_disabled: Seq<Seq<char>>,
    disable_optionals: bool,
)
    ensures
        own_addon_paths(pack, addons, user_disabled, disable_optionals) == addons.filter(
            |a: (String, AddonSettings)|
                !a.1.is_optional || (!disable_optionals && !user_disabled.contains(a.0@)),
        ).map_values(|a: (String, AddonSettings)| join_spec(join_spec(pack, addons_dir_name()), a.0@)),
    decreases addons.len(),
{
    let loaded = |a: (String, AddonSettings)|
        !a.1.is_optional || (!disable_optionals && !user_disabled.contains(a.0@));
    let path = |a: (String, AddonSettings)| join_spec(join_spec(pack, addons_dir_name()), a.0@);
    if addons.len() == 0 {
        assert(addons.filter(loaded) =~= Seq::<(String, AddonSettings)>::empty()) by {
            reveal(Seq::filter);
        }
        assert(addons.filter(loaded).map_values(path) =~= Seq::<Seq<char>>::empty());
    } else {
        lemma_own_addon_paths_in_order(pack, addons.drop_last(), user_disabled, disable_optionals);
        assert(addons =~= addons.drop_last().push(addons.last()));
        addons.drop_last().lemma_filter_push(addons.last(), loaded);
        if loaded(addons.last()) {
            assert(addons.filter(loaded).map_values(path) =~= addons.drop_last().filter(loaded).map_values(
                path,
            ).push(path(addons.last())));
        }
    }
}

/// The optional addons the user switched off for a pack (none without settings).
pub open spec fn user_disabled(entry: PackEntry) -> Seq<Seq<char>> {
    match entry.settings {
        Some(s) => str_views(s.disabled_optionals@),
        None => Seq::empty(),
    }
}

impl RepoHandle {
    /// The addon paths of `name` and of its ancestors, the pack's own first,
    /// following parent links for at most `fuel` steps.
    pub open spec fn resolve_spec(
        &self,
        name: Seq<char>,
        locals: Seq<String>,
        disable_optionals: bool,
        fuel: nat,
    ) -> WalkV
        decreases fuel,
    {
        if fuel == 0 {
            WalkV::Exhausted
        } else {
            match self.lookup_in(name, locals) {
                PackLookup::Found(i) => {
                    let own = own_addon_paths(
                        name,
                        self.packs@[i].config.addons@,
                        user_disabled(self.packs@[i]),
                        disable_optionals,
                    );
                    match self.packs@[i].config.parent {
                        None => WalkV::Done(own),
                        Some(p) => match self.resolve_spec(
                            p@,
                            locals,
                            disable_optionals,
                            (fuel - 1) as nat,
                        ) {
                            WalkV::Done(x) => WalkV::Done(own + x),
                            other => other,
                        },
                    }
                },
                l => WalkV::Failed(name, l),
            }
        }
    }

    /// Resolving addons runs out of steps exactly when the pack chain does.
    pub proof fn lemma_resolve_ends(
        &self,
        name: Seq<char>,
        locals: Seq<String>,
        disable_optionals: bool,
        fuel: nat,
    )
        ensures
            (self.resolve_spec(name, locals, disable_optionals, fuel) is Exhausted) == (
            self.chain_spec(name, locals, fuel) is Exhausted),
        decreases fuel,
    {
        if fuel > 0 {
            match self.lookup_in(name, locals) {
                PackLookup::Found(i) => {
                    match self.packs@[i].config.parent {
                        Some(p) => {
                            self.lemma_resolve_ends(p@, locals, disable_optionals, (fuel - 1) as nat);
                        },
                        None => {},
                    }
                },
                _ => {},
            }
        }
    }

    /// The paths, relative to the repository, of the addons of `pack_name`
    /// and of all its ancestors: the pack's own addons first, then its
    /// parent's, and so on. Required addons always count; optional ones only
    /// when `disable_optionals` is off and the user has not switched them off.
    pub fn resolve_addons_in(
        &self,
        pack_name: &str,
        locals: &Vec<String>,
        disable_optionals: bool,
    ) -> (r: Result<Vec<String>, PammError>)
        requires
            self.chain_ends(pack_name@, locals@),
        ensures
            match self.resolve_spec(
                pack_name@,
                locals@,
                disable_optionals,
                (self.packs@.len() + 1) as nat,
            ) {
                WalkV::Done(c) => r matches Ok(v) && str_views(v@) == c,
                WalkV::Failed(n, l) => r matches Err(e) && lookup_error(e, n, l),
                WalkV::Exhausted => false,
            },
    {
        let ghost top: nat = (self.packs@.len() + 1) as nat;
        let ghost full = self.resolve_spec(pack_name@, locals@, disable_optionals, top);
        proof {
            self.lemma_resolve_ends(pack_name@, locals@, disable_optionals, top);
        }
        let mut acc: Vec<String> = Vec::new();
        let mut current = crate::text::to_owned_string(pack_name);
        let ghost mut fuel: nat = top;
        proof {
            match self.resolve_spec(current@, locals@, disable_optionals, fuel) {
                WalkV::Done(c) => {
                    assert(Seq::<Seq<char>>::empty() + c =~= c);
                },
                _ => {},
            }
        }
        loop
            invariant_except_break
                self.resolve_spec(current@, locals@, disable_optionals, fuel) !is Exhausted,
                full == match self.resolve_spec(current@, locals@, disable_optionals, fuel) {
                    WalkV::Done(c) => WalkV::Done(str_views(acc@) + c),
                    other => other,
                },
            invariant
                top == (self.packs@.len() + 1) as nat,
                full == self.resolve_spec(pack_name@, locals@, disable_optionals, top),
            ensures
                full == WalkV::Done(str_views(acc@)),
            decreases fuel,
        {
            proof {
                self.lemma_lookup_in_range(current@);
            }
            let pack = match self.get_pack_in(current.as_str(), locals) {
                Ok(p) => p,
                Err(e) => {
                    proof {
                        assert(fuel > 0);
                        assert(self.resolve_spec(current@, locals@, disable_optionals, fuel) == WalkV::Failed(current@, self.lookup_in(current@, locals@)));
                        assert(full == WalkV::Failed(current@, self.lookup_in(current@, locals@)));
                        assert(lookup_error(e, current@, self.lookup_in(current@, locals@)));
                    }
                    return Err(e);
                },
            };
            let ghost i = match self.lookup_in(current@, locals@) {
                PackLookup::Found(i) => i,
                _ => 0,
            };
            let idx = match self.find_pack(current.as_str()) {
                Some(k) => k,
                None => {
                    return Err(PammError::PackConfigMissing(current));
                },
            };
            let empty: Vec<String> = Vec::new();
            let disabled = match &self.packs[idx].settings {
                Some(s) => &s.disabled_optionals,
                None => &empty,
            };
            proof {
                assert(str_views(empty@) =~= Seq::<Seq<char>>::empty());
                assert(idx == i);
            }
            let own = own_addon_paths_exec(current.as_str(), &pack.addons, disabled, disable_optionals);
            let ghost old_acc = str_views(acc@);
            let ghost own_v = str_views(own@);
            let mut own = own;
            acc.append(&mut own);
            proof {
                assert(str_views(acc@) =~= old_acc + own_v);
            }
            match &pack.parent {
                Some(p) => {
                    let next = p.clone();
                    proof {
                        match self.resolve_spec(next@, locals@, disable_optionals, (fuel - 1) as nat) {
                            WalkV::Done(c) => {
                                assert(old_acc + (own_v + c) =~= (old_acc + own_v) + c);
                            },
                            _ => {},
                        }
                        fuel = (fuel - 1) as nat;
                    }
                    current = next;
                },
                None => {
                    break;
                },
            }
        }
        Ok(acc)
    }
}

/// The addon paths a pack contributes (see [`own_addon_paths`]).
fn own_addon_paths_exec(
    pack: &str,
    addons: &Vec<(String, AddonSettings)>,
    disabled: &Vec<String>,
    disable_optionals: bool,
) -> (r: Vec<String>)
    ensures
        str_views(r@) == own_addon_paths(pack@, addons@, str_views(disabled@), disable_optionals),
{
    let dir = join_path(pack, "addons");
    proof {
        reveal_strlit("addons");
        assert("addons"@ =~= addons_dir_name());
    }
    let mut r: Vec<String> = Vec::new();
    let mut i: usize = 0;
    while i < addons.len()
        invariant
            i <= addons.len(),
            dir@ == join_spec(pack@, addons_dir_name()),
            str_views(r@) == own_addon_paths(
                pack@,
                addons@.take(i as int),
                str_views(disabled@),
                disable_optionals,
            ),
        decreases addons.len() - i,
    {
        let ghost t = addons@.take(i + 1);
        proof {
            assert(t.drop_last() =~= addons@.take(i as int));
            assert(t.last() == addons@[i as int]);
        }
        let settings = addons[i].1;
        let enabled = !settings.is_optional || (!disable_optionals && !contains_str(
            disabled,
            addons[i].0.as_str(),
        ));
        if enabled {
            let ghost before = str_views(r@);
            r.push(join_path(dir.as_str(), addons[i].0.as_str()));
            proof {
                assert(str_views(r@) =~= before.push(join_spec(dir@, addons@[i as int].0@)));
            }
        }
        i = i + 1;
    }
    proof {
        assert(addons@.take(addons.len() as int) =~= addons@);
    }
    r
}

impl RepoHandle {
    /// Whether the parent links from `pack_name` end rather than going round
    /// a cycle (see [`RepoHandle::chain_ends`]).
    pub fn pack_chain_ends(&self, pack_name: &str, locals: &Vec<String>) -> (r: bool)
        ensures
            r == self.chain_ends(pack_name@, locals@),
    {
        let ghost top: nat = (self.packs@.len() + 1) as nat;
        let mut current = crate::text::to_owned_string(pack_name);
        let mut remaining: usize = self.packs.len();
        loop
            invariant
                top == (self.packs@.len() + 1) as nat,
                (self.chain_spec(pack_name@, locals@, top) is Exhausted) == (self.chain_spec(
                    current@,
                    locals@,
                    (remaining + 1) as nat,
                ) is Exhausted),
            decreases remaining,
        {
            proof {
                self.lemma_lookup_in_range(current@);
            }
            let pack = match self.get_pack_in(current.as_str(), locals) {
                Ok(p) => p,
                Err(_) => {
                    return true;
                },
            };
            match &pack.parent {
                Some(p) => {
                    if remaining == 0 {
                        proof {
                            let i = match self.lookup_in(current@, locals@) {
                                PackLookup::Found(i) => i,
                                _ => 0,
                            };
                            assert(self.lookup_in(current@, locals@) is Found);
                            assert(self.packs@[i].config.parent == Some(*p));
                            assert(self.chain_spec(p@, locals@, 0) is Exhausted);
                        }
                        return false;
                    }
                    current = p.clone();
                    remaining = remaining - 1;
                },
                None => {
                    return true;
                },
            }
        }
    }
}

/// The strings of `v` in reverse order.
fn reversed(v: Vec<String>) -> (r: Vec<String>)
    ensures
        str_views(r@) == str_views(v@).reverse(),
{
    let mut r: Vec<String> = Vec::new();
    let mut v = v;
    let ghost orig = str_views(v@);
    while v.len() > 0
        invariant
            orig.len() == v.len() + r.len(),
            str_views(v@) == orig.take(v.len() as int),
            str_views(r@) == orig.skip(v.len() as int).reverse(),
        decreases v.len(),
    {
        let ghost n = v.len();
        let ghost old_v = v@;
        let ghost old_r = r@;
        let x = v.pop().unwrap();
        r.push(x);
        proof {
            assert(old_v[n - 1] == x);
            assert(str_views(old_v)[n - 1] == orig[n - 1]);
            assert(str_views(r@) =~= str_views(old_r).push(x@));
            assert(str_views(v@) =~= orig.take(n - 1));
            assert(orig.skip(n - 1) =~= seq![orig[n - 1]] + orig.skip(n as int));
            assert(str_views(r@) =~= orig.skip(n - 1).reverse());
        }
    }
    assert(orig.skip(0) =~= orig);
    r
}

/// A client repository: a repository mirroring a remote, with the local
/// user's settings.
#[derive(Debug)]
pub struct ClientRepoHandle {
    base: RepoHandle,
    user_settings: RepoUserSettings,
}

impl ClientRepoHandle {
    /// The repository.
    pub closed spec fn repo(&self) -> RepoHandle {
        self.base
    }

    /// The user's settings.
    pub closed spec fn settings(&self) -> RepoUserSettings {
        self.user_settings
    }

    /// Opens a client repository from its loaded parts. A client repository
    /// must have user settings; without them it is refused.
    pub fn open(base: RepoHandle, user_settings: Option<RepoUserSettings>) -> (r: Result<
        Self,
        PammError,
    >)
        ensures
            user_settings is None <==> r matches Err(PammError::MissingUserSettings),
            r matches Ok(h) ==> h.repo() == base && Some(h.settings()) == user_settings,
    {
        match user_settings {
            Some(user_settings) => Ok(Self { base, user_settings }),
            None => Err(PammError::MissingUserSettings),
        }
    }

    /// The repository.
    pub fn repo_handle(&self) -> (r: &RepoHandle)
        ensures
            *r == self.repo(),
    {
        &self.base
    }

    /// The user's settings.
    pub fn user_settings(&self) -> (r: &RepoUserSettings)
        ensures
            *r == self.settings(),
    {
        &self.user_settings
    }

    /// The remote this repository mirrors.
    pub fn remote(&self) -> (r: &String)
        ensures
            *r == self.settings().remote,
    {
        &self.user_settings.remote
    }

    /// Replaces the user's settings.
    pub fn update_settings(&mut self, settings: RepoUserSettings)
        ensures
            final(self).settings() == settings,
            final(self).repo() == old(self).repo(),
    {
        self.user_settings = settings;
    }

    /// Whether `name` names a local pack (up to ASCII case).
    pub open spec fn is_local_spec(&self, name: Seq<char>) -> bool {
        local_in(self.settings().local_packs@, name)
    }

    /// Whether `pack_name` is a local pack: laid out on disk like any other
    /// pack and recorded in the user's settings, but not backed by anything
    /// remote. Names are compared up to ASCII case.
    pub fn is_local_pack(&self, pack_name: &str) -> (r: bool)
        ensures
            r == self.is_local_spec(pack_name@),
    {
        is_local_in(&self.user_settings.local_packs, pack_name)
    }

    /// Guard for every operation that talks to the remote: local packs exist
    /// only on this machine, so there is nothing to compare them against.
    pub fn ensure_not_local(&self, pack_name: &str) -> (r: Result<(), PammError>)
        ensures
            r is Ok <==> !self.is_local_spec(pack_name@),
            r matches Err(e) ==> e matches PammError::LocalPackHasNoRemote(n) && n@ == pack_name@,
    {
        if self.is_local_pack(pack_name) {
            Err(PammError::LocalPackHasNoRemote(crate::text::to_owned_string(pack_name)))
        } else {
            Ok(())
        }
    }

    /// Looks a pack up: local packs are absent from the repository
    /// configuration and bypass its registry; other packs must be registered.
    pub open spec fn lookup(&self, name: Seq<char>) -> PackLookup {
        self.repo().lookup_in(name, self.settings().local_packs@)
    }

    /// A pack's configuration (see [`ClientRepoHandle::lookup`]).
    pub fn get_pack(&self, pack_name: &str) -> (r: Result<&PackConfig, PammError>)
        ensures
            self.lookup(pack_name@) matches PackLookup::Found(i) ==> r matches Ok(c) && c
                == self.repo().packs@[i].config,
            self.lookup(pack_name@) !is Found ==> (r matches Err(e) && lookup_error(e, pack_name@, self.lookup(pack_name@))),
    {
        self.base.get_pack_in(pack_name, &self.user_settings.local_packs)
    }

    /// A pack's configuration together with the user's settings for it.
    pub fn get_pack_with_settings(&self, pack_name: &str) -> (r: Result<
        (&PackConfig, &PackUserSettings),
        PammError,
    >)
        ensures
            self.lookup(pack_name@) matches PackLookup::Found(i) ==> {
                &&& self.repo().packs@[i].settings is Some ==> (r matches Ok((c, s)) && c
                    == self.repo().packs@[i].config && Some(*s) == self.repo().packs@[i].settings)
                &&& self.repo().packs@[i].settings is None ==> (r matches Err(e) && (e matches PammError::PackSettingsMissing(n) && n@ == pack_name@))
            },
            self.lookup(pack_name@) !is Found ==> (r matches Err(e) && lookup_error(e, pack_name@, self.lookup(pack_name@))),
    {
        proof {
            self.repo().lemma_lookup_in_range(pack_name@);
        }
        let config = self.get_pack(pack_name)?;
        let i = match self.base.find_pack(pack_name) {
            Some(i) => i,
            None => {
                return Err(PammError::PackConfigMissing(crate::text::to_owned_string(pack_name)));
            },
        };
        match &self.base.packs[i].settings {
            Some(s) => Ok((config, s)),
            None => Err(PammError::PackSettingsMissing(crate::text::to_owned_string(pack_name))),
        }
    }

    /// The parent links from `name` end rather than going round a cycle.
    pub open spec fn chain_ends(&self, name: Seq<char>) -> bool {
        self.repo().chain_ends(name, self.settings().local_packs@)
    }

    /// Whether the parent links from `pack_name` end rather than going round
    /// a cycle.
    pub fn pack_chain_ends(&self, pack_name: &str) -> (r: bool)
        ensures
            r == self.chain_ends(pack_name@),
    {
        self.base.pack_chain_ends(pack_name, &self.user_settings.local_packs)
    }

    /// The pack `pack_name` and its ancestors, root first and `pack_name`
    /// last, or the error of the first lookup that fails.
    pub fn collect_pack_chain(&self, pack_name: &str) -> (r: Result<Vec<String>, PammError>)
        requires
            self.chain_ends(pack_name@),
        ensures
            match self.repo().chain_spec(
                pack_name@,
                self.settings().local_packs@,
                (self.repo().packs@.len() + 1) as nat,
            ) {
                WalkV::Done(c) => r matches Ok(v) && str_views(v@) == c,
                WalkV::Failed(n, l) => r matches Err(e) && lookup_error(e, n, l),
                WalkV::Exhausted => false,
            },
    {
        self.base.collect_pack_chain_in(pack_name, &self.user_settings.local_packs)
    }

    /// The repository-relative paths of the addons a launch of `pack_name`
    /// loads: the pack's own, then its ancestors' (see
    /// [`RepoHandle::resolve_addons_in`]).
    pub fn get_addon_paths(&self, pack_name: &str, disable_optionals: bool) -> (r: Result<
        Vec<String>,
        PammError,
    >)
        requires
            self.chain_ends(pack_name@),
        ensures
            match self.repo().resolve_spec(
                pack_name@,
                self.settings().local_packs@,
                disable_optionals,
                (self.repo().packs@.len() + 1) as nat,
            ) {
                WalkV::Done(c) => r matches Ok(v) && str_views(v@) == c,
                WalkV::Failed(n, l) => r matches Err(e) && lookup_error(e, n, l),
                WalkV::Exhausted => false,
            },
    {
        self.base.resolve_addons_in(pack_name, &self.user_settings.local_packs, disable_optionals)
    }

    /// Every pack of the repository, remote and local alike: the registered
    /// packs, then the local ones.
    pub fn all_pack_names(&self) -> (r: Vec<String>)
        ensures
            str_views(r@) == str_views(self.repo().repo_config.packs@) + str_views(
                self.settings().local_packs@,
            ),
    {
        let mut r = copy_strings(&self.base.repo_config.packs);
        let mut locals = copy_strings(&self.user_settings.local_packs);
        let ghost a = str_views(r@);
        let ghost b = str_views(locals@);
        r.append(&mut locals);
        assert(str_views(r@) =~= a + b);
        r
    }
}

} // verus!

verus! {

/// The checksum first recorded for addon `name`, if any.
pub open spec fn index_lookup(s: Seq<(String, Vec<u8>)>, name: Seq<char>) -> Option<Seq<u8>>
    decreases s.len(),
{
    if s.len() == 0 {
        None
    } else if s[0].0@ == name {
        Some(s[0].1@)
    } else {
        index_lookup(s.drop_first(), name)
    }
}

/// The addons a pack's user has: declared, and required or not switched off.
pub open spec fn expected_addons(
    addons: Seq<(String, AddonSettings)>,
    user_disabled: Seq<Seq<char>>,
) -> Set<Seq<char>> {
    Set::new(
        |n: Seq<char>|
            addon_lookup(addons, n) matches Some(s) && addon_enabled(s, n, user_disabled, false),
    )
}

/// The addons a checksum index records.
pub open spec fn indexed_addons(index: Seq<(String, Vec<u8>)>) -> Set<Seq<char>> {
    Set::new(|n: Seq<char>| index_lookup(index, n) is Some)
}

/// A pack is up to date when the local index records exactly the addons the
/// user has, each with the checksum the remote index records.
pub open spec fn up_to_date(
    addons: Seq<(String, AddonSettings)>,
    user_disabled: Seq<Seq<char>>,
    local: Seq<(String, Vec<u8>)>,
    remote: Seq<(String, Vec<u8>)>,
) -> bool {
    &&& expected_addons(addons, user_disabled) == indexed_addons(local)
    &&& forall|n: Seq<char>|
        #[trigger] indexed_addons(local).contains(n) ==> index_lookup(remote, n) == index_lookup(
            local,
            n,
        )
}

proof fn lemma_addon_lookup(s: Seq<(String, AddonSettings)>, n: Seq<char>)
    ensures
        addon_lookup(s, n) matches Some(x) ==> exists|i: int|
            0 <= i < s.len() && s[i].0@ == n && s[i].1 == x,
        addon_lookup(s, n) is None ==> forall|i: int| 0 <= i < s.len() ==> s[i].0@ != n,
    decreases s.len(),
{
    if s.len() > 0 {
        lemma_addon_lookup(s.drop_first(), n);
        if addon_lookup(s, n) is Some && s[0].0@ != n {
            let x = addon_lookup(s, n)->Some_0;
            let i = choose|i: int| 0 <= i < s.drop_first().len() && s.drop_first()[i].0@ == n
                && s.drop_first()[i].1 == x;
            assert(s[i + 1] == s.drop_first()[i]);
        }
        assert forall|i: int| 1 <= i < s.len() implies s[i] == s.drop_first()[i - 1] by {}
    }
}

proof fn lemma_index_lookup(s: Seq<(String, Vec<u8>)>, n: Seq<char>)
    ensures
        index_lookup(s, n) is Some ==> exists|i: int| 0 <= i < s.len() && s[i].0@ == n,
        index_lookup(s, n) is None ==> forall|i: int| 0 <= i < s.len() ==> s[i].0@ != n,
    decreases s.len(),
{
    if s.len() > 0 {
        lemma_index_lookup(s.drop_first(), n);
        if index_lookup(s, n) is Some && s[0].0@ != n {
            let i = choose|i: int| 0 <= i < s.drop_first().len() && s.drop_first()[i].0@ == n;
            assert(s[i + 1] == s.drop_first()[i]);
        }
        assert forall|i: int| 1 <= i < s.len() implies s[i] == s.drop_first()[i - 1] by {}
    }
}

/// The checksum first recorded for `name` in `index`, if any.
fn index_get<'a>(index: &'a Vec<(String, Vec<u8>)>, name: &str) -> (r: Option<&'a Vec<u8>>)
    ensures
        match r {
            Some(c) => index_lookup(index@, name@) == Some(c@),
            None => index_lookup(index@, name@) is None,
        },
{
    let mut i: usize = 0;
    assert(index@.skip(0) =~= index@);
    while i < index.len()
        invariant
            i <= index.len(),
            index_lookup(index@, name@) == index_lookup(index@.skip(i as int), name@),
        decreases index.len() - i,
    {
        proof {
            assert(index@.skip(i as int).drop_first() =~= index@.skip(i + 1));
        }
        if str_eq(index[i].0.as_str(), name) {
            return Some(&index[i].1);
        }
        i = i + 1;
    }
    None
}

/// Whether addon `name` is declared with settings the user has it under.
fn expects_addon(
    addons: &Vec<(String, AddonSettings)>,
    disabled: &Vec<String>,
    name: &str,
) -> (r: bool)
    ensures
        r == expected_addons(addons@, str_views(disabled@)).contains(name@),
{
    let mut i: usize = 0;
    assert(addons@.skip(0) =~= addons@);
    while i < addons.len()
        invariant
            i <= addons.len(),
            addon_lookup(addons@, name@) == addon_lookup(addons@.skip(i as int), name@),
        decreases addons.len() - i,
    {
        proof {
            assert(addons@.skip(i as int).drop_first() =~= addons@.skip(i + 1));
        }
        if str_eq(addons[i].0.as_str(), name) {
            let s = addons[i].1;
            return !s.is_optional || !contains_str(disabled, name);
        }
        i = i + 1;
    }
    false
}

impl ClientRepoHandle {
    /// Decides whether a pack is up to date from its checksum indexes: the
    /// remote one and the local one, if there is a readable local one.
    ///
    /// Local packs have no remote and are refused first, whatever the remote
    /// publishes. Then a remote whose published tree is not in the current
    /// layout (by the version it publishes, `remote_version`) is refused: it
    /// has not been rebuilt. Without a local index the
    /// pack is not up to date. Otherwise the pack is up to date when the
    /// local index records exactly the addons the user has (required ones and
    /// optional ones not switched off), each with the remote's checksum.
    #[verifier::loop_isolation(false)]
    pub fn quick_check_pack_up_to_date(
        &self,
        pack_name: &str,
        remote_version: Option<u64>,
        remote_index: &crate::models::ChecksumIndex,
        local_index: Option<&crate::models::ChecksumIndex>,
    ) -> (r: Result<bool, PammError>)
        ensures
            self.is_local_spec(pack_name@) ==> (r matches Err(e) && (e matches PammError::LocalPackHasNoRemote(n) && n@ == pack_name@)),
            !self.is_local_spec(pack_name@) && layout_version(remote_version) != CURRENT_LAYOUT_VERSION ==> (r matches Err(e) && error_view(e)
                == ErrorV::RemoteLayoutMismatch(layout_version(remote_version), CURRENT_LAYOUT_VERSION)),
            layout_version(remote_version) == CURRENT_LAYOUT_VERSION && !self.is_local_spec(pack_name@) && local_index is None ==> r == Ok::<bool, PammError>(false),
            layout_version(remote_version) == CURRENT_LAYOUT_VERSION && !self.is_local_spec(pack_name@) && local_index is Some ==> match self.lookup(pack_name@) {
                PackLookup::Found(i) => match self.repo().packs@[i].settings {
                    Some(s) => r == Ok::<bool, PammError>(
                        up_to_date(
                            self.repo().packs@[i].config.addons@,
                            str_views(s.disabled_optionals@),
                            local_index->Some_0.checksums@,
                            remote_index.checksums@,
                        ),
                    ),
                    None => r matches Err(e) && (e matches PammError::PackSettingsMissing(n) && n@ == pack_name@),
                },
                l => r matches Err(e) && lookup_error(e, pack_name@, l),
            },
    {
        self.ensure_not_local(pack_name)?;
        verify_remote_version(remote_version)?;
        let local = match local_index {
            Some(l) => l,
            None => {
                return Ok(false);
            },
        };
        proof {
            self.repo().lemma_lookup_in_range(pack_name@);
        }
        let (config, settings) = self.get_pack_with_settings(pack_name)?;
        let addons = &config.addons;
        let disabled = &settings.disabled_optionals;
        let ghost dis = str_views(disabled@);
        let ghost expected = expected_addons(addons@, dis);
        let ghost actual = indexed_addons(local.checksums@);
        // Every addon the user has must be indexed.
        let mut i: usize = 0;
        while i < addons.len()
            invariant
                i <= addons.len(),
                expected == expected_addons(addons@, dis),
                actual == indexed_addons(local.checksums@),
                dis == str_views(disabled@),
                forall|j: int|
                    0 <= j < i ==> (expected.contains(#[trigger] addons@[j].0@) ==> actual.contains(
                        addons@[j].0@,
                    )),
            decreases addons.len() - i,
        {
            let name = addons[i].0.as_str();
            if expects_addon(addons, disabled, name) {
                if index_get(&local.checksums, name).is_none() {
                    return Ok(false);
                }
            }
            i = i + 1;
        }
        // Every indexed addon must be one the user has.
        let mut j: usize = 0;
        while j < local.checksums.len()
            invariant
                j <= local.checksums.len(),
                expected == expected_addons(addons@, dis),
                dis == str_views(disabled@),
                forall|k: int| 0 <= k < j ==> expected.contains(#[trigger] local.checksums@[k].0@),
            decreases local.checksums.len() - j,
        {
            if !expects_addon(addons, disabled, local.checksums[j].0.as_str()) {
                proof {
                    lemma_index_lookup(local.checksums@, local.checksums@[j as int].0@);
                    assert(actual.contains(local.checksums@[j as int].0@));
                    assert(!expected.contains(local.checksums@[j as int].0@));
                }
                return Ok(false);
            }
            j = j + 1;
        }
        proof {
            assert forall|n: Seq<char>| expected.contains(n) implies actual.contains(n) by {
                lemma_addon_lookup(addons@, n);
                let k = choose|k: int| 0 <= k < addons@.len() && addons@[k].0@ == n && addons@[k].1 == addon_lookup(addons@, n)->Some_0;
                assert(expected.contains(addons@[k].0@));
            }
            assert forall|n: Seq<char>| actual.contains(n) implies expected.contains(n) by {
                lemma_index_lookup(local.checksums@, n);
                let k = choose|k: int| 0 <= k < local.checksums@.len() && local.checksums@[k].0@ == n;
                assert(expected.contains(local.checksums@[k].0@));
            }
            assert(expected =~= actual);
        }
        // Every indexed checksum must be the remote's.
        let mut k: usize = 0;
        while k < local.checksums.len()
            invariant
                k <= local.checksums.len(),
                actual == indexed_addons(local.checksums@),
                forall|m: int|
                    0 <= m < k ==> index_lookup(remote_index.checksums@, #[trigger] local.checksums@[m].0@)
                        == index_lookup(local.checksums@, local.checksums@[m].0@),
            decreases local.checksums.len() - k,
        {
            let name = local.checksums[k].0.as_str();
            let mine = index_get(&local.checksums, name);
            let theirs = index_get(&remote_index.checksums, name);
            let same = match (mine, theirs) {
                (Some(a), Some(b)) => crate::manifest::bytes_eq(a, b),
                (None, None) => true,
                _ => false,
            };
            if !same {
                proof {
                    lemma_index_lookup(local.checksums@, name@);
                    assert(actual.contains(name@));
                }
                return Ok(false);
            }
            k = k + 1;
        }
        proof {
            assert forall|n: Seq<char>| #[trigger] actual.contains(n) implies index_lookup(
                remote_index.checksums@,
                n,
            ) == index_lookup(local.checksums@, n) by {
                lemma_index_lookup(local.checksums@, n);
                let m = choose|m: int| 0 <= m < local.checksums@.len() && local.checksums@[m].0@ == n;
                assert(index_lookup(remote_index.checksums@, local.checksums@[m].0@) == index_lookup(local.checksums@, local.checksums@[m].0@));
            }
        }
        Ok(true)
    }
}

} // verus!

verus! {

/// The model of the error a failed lookup of `name` reports.
pub open spec fn lookup_error_v(name: Seq<char>, l: PackLookup) -> ErrorV {
    match l {
        PackLookup::NotRegistered => ErrorV::PackNotFound(name),
        _ => ErrorV::PackConfigMissing(name),
    }
}

/// The data one pack's diff is decided on: the outcome of the quick check,
/// the manifest of what is on disk, and the manifest the remote publishes
/// (without the optional addons the user switched off).
#[derive(Debug)]
pub struct PackDiffInputs {
    pub up_to_date: bool,
    pub actual: PackManifest,
    pub remote: PackManifest,
}

/// The model of the outcome of a diff request.
pub open spec fn diff_result_view(r: Result<Option<PackDiff>, PammError>) -> Result<
    Option<PackDiffV>,
    ErrorV,
> {
    match r {
        Ok(Some(d)) => Ok(Some(pack_diff_view(d))),
        Ok(None) => Ok(None),
        Err(e) => Err(error_view(e)),
    }
}

/// The models of a sequence of pack diffs.
pub open spec fn pack_diffs_view(s: Seq<PackDiff>) -> Seq<PackDiffV> {
    Seq::new(s.len(), |i: int| pack_diff_view(s[i]))
}

impl ClientRepoHandle {
    /// Looks a pack and the user's settings for it up: the pack's position,
    /// or the error reported.
    pub open spec fn settings_outcome(&self, name: Seq<char>) -> Result<int, ErrorV> {
        match self.lookup(name) {
            PackLookup::Found(i) => if self.repo().packs@[i].settings is Some {
                Ok(i)
            } else {
                Err(ErrorV::PackSettingsMissing(name))
            },
            l => Err(lookup_error_v(name, l)),
        }
    }

    /// A pack's configuration and settings, or the error (see
    /// [`ClientRepoHandle::settings_outcome`]).
    pub fn pack_with_settings(&self, pack_name: &str) -> (r: Result<
        (&PackConfig, &PackUserSettings),
        PammError,
    >)
        ensures
            match self.settings_outcome(pack_name@) {
                Ok(i) => r matches Ok((c, s)) && c == self.repo().packs@[i].config && Some(*s)
                    == self.repo().packs@[i].settings,
                Err(ev) => r matches Err(e) && error_view(e) == ev,
            },
    {
        self.get_pack_with_settings(pack_name)
    }

    /// The outcome of a diff request for pack `name`.
    pub open spec fn pack_diff_spec(
        &self,
        name: Seq<char>,
        force_refresh: bool,
        up_to_date: bool,
        actual: PackManifest,
        remote: PackManifest,
    ) -> Result<Option<PackDiffV>, ErrorV> {
        if self.is_local_spec(name) {
            Err(ErrorV::LocalPackHasNoRemote(name))
        } else if !force_refresh && up_to_date {
            Ok(None)
        } else {
            match self.settings_outcome(name) {
                Ok(_) => Ok(Some(manifest_diff_spec(actual, remote))),
                Err(e) => Err(e),
            }
        }
    }

    /// Decides a pack's diff. Local packs have no remote and are refused.
    /// Unless `force_refresh`, a pack the quick check found up to date needs
    /// no diff. Otherwise the pack and its settings must exist, and the diff
    /// leads from the manifest of what is on disk to the remote's.
    pub fn get_pack_diff(
        &self,
        pack_name: &str,
        force_refresh: bool,
        up_to_date: bool,
        actual: &PackManifest,
        remote: &PackManifest,
    ) -> (r: Result<Option<PackDiff>, PammError>)
        ensures
            diff_result_view(r) == self.pack_diff_spec(
                pack_name@,
                force_refresh,
                up_to_date,
                *actual,
                *remote,
            ),
    {
        self.ensure_not_local(pack_name)?;
        if !force_refresh && up_to_date {
            return Ok(None);
        }
        let _ = self.pack_with_settings(pack_name)?;
        Ok(Some(actual.determine_pack_diff(remote)))
    }

    /// The outcome of diff requests for the packs `names`, in order, with
    /// their inputs: the diffs of the packs not up to date, or the first error.
    pub open spec fn parents_diffs_spec(
        &self,
        names: Seq<Seq<char>>,
        inputs: Seq<PackDiffInputs>,
        force_refresh: bool,
    ) -> Result<Seq<PackDiffV>, ErrorV>
        decreases names.len(),
    {
        if names.len() == 0 {
            Ok(Seq::empty())
        } else {
            match self.parents_diffs_spec(names.drop_last(), inputs, force_refresh) {
                Err(e) => Err(e),
                Ok(v) => {
                    let k = names.len() - 1;
                    match self.pack_diff_spec(
                        names.last(),
                        force_refresh,
                        inputs[k].up_to_date,
                        inputs[k].actual,
                        inputs[k].remote,
                    ) {
                        Err(e) => Err(e),
                        Ok(None) => Ok(v),
                        Ok(Some(d)) => Ok(v.push(d)),
                    }
                },
            }
        }
    }

    /// Decides the diffs of a pack and of all its ancestors, root first.
    /// `inputs` holds the inputs of each pack of the chain, in chain order.
    /// Packs found up to date contribute no diff; the first failure is
    /// returned.
    pub fn get_pack_and_parents_diffs(
        &self,
        pack_name: &str,
        force_refresh: bool,
        inputs: &Vec<PackDiffInputs>,
    ) -> (r: Result<Vec<PackDiff>, PammError>)
        requires
            self.chain_ends(pack_name@),
            match self.repo().chain_spec(
                pack_name@,
                self.settings().local_packs@,
                (self.repo().packs@.len() + 1) as nat,
            ) {
                WalkV::Done(c) => inputs@.len() == c.len(),
                _ => true,
            },
        ensures
            match self.repo().chain_spec(
                pack_name@,
                self.settings().local_packs@,
                (self.repo().packs@.len() + 1) as nat,
            ) {
                WalkV::Done(c) => match self.parents_diffs_spec(c, inputs@, force_refresh) {
                    Ok(v) => r matches Ok(ds) && pack_diffs_view(ds@) == v,
                    Err(ev) => r matches Err(e) && error_view(e) == ev,
                },
                WalkV::Failed(n, l) => r matches Err(e) && error_view(e) == lookup_error_v(n, l),
                WalkV::Exhausted => false,
            },
    {
        let chain = self.collect_pack_chain(pack_name)?;
        let ghost c = str_views(chain@);
        let mut out: Vec<PackDiff> = Vec::new();
        let mut i: usize = 0;
        proof {
            assert(c.take(0) =~= Seq::<Seq<char>>::empty());
            assert(pack_diffs_view(out@) =~= Seq::<PackDiffV>::empty());
        }
        while i < chain.len()
            invariant
                c == str_views(chain@),
                self.repo().chain_spec(
                    pack_name@,
                    self.settings().local_packs@,
                    (self.repo().packs@.len() + 1) as nat,
                ) == WalkV::Done(c),
                inputs@.len() == chain@.len(),
                i <= chain.len(),
                self.parents_diffs_spec(c.take(i as int), inputs@, force_refresh) == Ok::<
                    Seq<PackDiffV>,
                    ErrorV,
                >(pack_diffs_view(out@)),
            decreases chain.len() - i,
        {
            let ghost t = c.take(i + 1);
            proof {
                assert(t.drop_last() =~= c.take(i as int));
                assert(t.last() == chain@[i as int]@);
            }
            let inp = &inputs[i];
            match self.get_pack_diff(
                chain[i].as_str(),
                force_refresh,
                inp.up_to_date,
                &inp.actual,
                &inp.remote,
            ) {
                Err(e) => {
                    proof {
                        assert(self.parents_diffs_spec(t, inputs@, force_refresh) == Err::<Seq<PackDiffV>, ErrorV>(error_view(e)));
                        self.lemma_parents_diffs_err(c, inputs@, force_refresh, i + 1);
                    }
                    return Err(e);
                },
                Ok(None) => {},
                Ok(Some(d)) => {
                    let ghost before = out@;
                    out.push(d);
                    proof {
                        assert(pack_diffs_view(out@) =~= pack_diffs_view(before).push(
                            pack_diff_view(d),
                        ));
                    }
                },
            }
            i = i + 1;
        }
        proof {
            assert(c.take(chain.len() as int) =~= c);
        }
        Ok(out)
    }

    /// A failure on a prefix of the packs is the failure of all of them.
    proof fn lemma_parents_diffs_err(
        &self,
        names: Seq<Seq<char>>,
        inputs: Seq<PackDiffInputs>,
        force_refresh: bool,
        k: int,
    )
        requires
            0 <= k <= names.len(),
            self.parents_diffs_spec(names.take(k), inputs, force_refresh) is Err,
        ensures
            self.parents_diffs_spec(names, inputs, force_refresh) == self.parents_diffs_spec(
                names.take(k),
                inputs,
                force_refresh,
            ),
        decreases names.len() - k,
    {
        if k < names.len() {
            assert(names.take(k + 1).drop_last() =~= names.take(k));
            self.lemma_parents_diffs_err(names, inputs, force_refresh, k + 1);
        } else {
            assert(names.take(k) =~= names);
        }
    }

    /// Checks that `diff` is meant for `pack_name` and finds the pack it
    /// applies to: its configuration, which must come with user settings.
    pub fn apply_pack_diff(&self, pack_name: &str, diff: &PackDiff) -> (r: Result<
        &PackConfig,
        PammError,
    >)
        ensures
            diff.pack_name@ != pack_name@ ==> (r matches Err(e) && error_view(e)
                == ErrorV::DiffPackMismatch(diff.pack_name@, pack_name@)),
            diff.pack_name@ == pack_name@ ==> match self.settings_outcome(pack_name@) {
                Ok(i) => r matches Ok(c) && c == self.repo().packs@[i].config,
                Err(ev) => r matches Err(e) && error_view(e) == ev,
            },
    {
        if !str_eq(diff.pack_name.as_str(), pack_name) {
            return Err(
                PammError::DiffPackMismatch {
                    diff_pack: diff.pack_name.clone(),
                    target_pack: crate::text::to_owned_string(pack_name),
                },
            );
        }
        let (config, _) = self.pack_with_settings(pack_name)?;
        Ok(config)
    }

    /// The outcome of finding the packs that diffs `ds` apply to, in order.
    pub open spec fn apply_all_spec(&self, ds: Seq<PackDiff>) -> Result<Seq<int>, ErrorV>
        decreases ds.len(),
    {
        if ds.len() == 0 {
            Ok(Seq::empty())
        } else {
            match self.apply_all_spec(ds.drop_last()) {
                Err(e) => Err(e),
                Ok(v) => match self.settings_outcome(ds.last().pack_name@) {
                    Ok(i) => Ok(v.push(i)),
                    Err(e) => Err(e),
                },
            }
        }
    }

    /// Finds, for each diff in order, the configuration of the pack it leads
    /// to; these are the packs the diffs are applied to, in that order. The
    /// first pack that cannot be found, or lacks user settings, fails all.
    pub fn apply_pack_and_parents_diffs(&self, diffs: &Vec<PackDiff>) -> (r: Result<
        Vec<&PackConfig>,
        PammError,
    >)
        ensures
            match self.apply_all_spec(diffs@) {
                Ok(idx) => r matches Ok(cs) && cs@.len() == idx.len() && forall|k: int|
                    0 <= k < idx.len() ==> *#[trigger] cs@[k] == self.repo().packs@[idx[k]].config,
                Err(ev) => r matches Err(e) && error_view(e) == ev,
            },
    {
        let mut out: Vec<&PackConfig> = Vec::new();
        let ghost mut idx: Seq<int> = Seq::empty();
        let mut i: usize = 0;
        proof {
            assert(diffs@.take(0) =~= Seq::<PackDiff>::empty());
        }
        while i < diffs.len()
            invariant
                i <= diffs.len(),
                self.apply_all_spec(diffs@.take(i as int)) == Ok::<Seq<int>, ErrorV>(idx),
                out@.len() == idx.len(),
                forall|k: int| 0 <= k < idx.len() ==> *#[trigger] out@[k] == self.repo().packs@[idx[k]].config,
            decreases diffs.len() - i,
        {
            let ghost t = diffs@.take(i + 1);
            proof {
                assert(t.drop_last() =~= diffs@.take(i as int));
                assert(t.last() == diffs@[i as int]);
            }
            match self.apply_pack_diff(diffs[i].pack_name.as_str(), &diffs[i]) {
                Ok(c) => {
                    proof {
                        idx = idx.push(self.settings_outcome(diffs@[i as int].pack_name@)->Ok_0);
                    }
                    out.push(c);
                },
                Err(e) => {
                    proof {
                        self.lemma_apply_all_err(diffs@, i + 1);
                    }
                    return Err(e);
                },
            }
            i = i + 1;
        }
        proof {
            assert(diffs@.take(diffs.len() as int) =~= diffs@);
        }
        Ok(out)
    }

    proof fn lemma_apply_all_err(&self, ds: Seq<PackDiff>, k: int)
        requires
            0 <= k <= ds.len(),
            self.apply_all_spec(ds.take(k)) is Err,
        ensures
            self.apply_all_spec(ds) == self.apply_all_spec(ds.take(k)),
        decreases ds.len() - k,
    {
        if k < ds.len() {
            assert(ds.take(k + 1).drop_last() =~= ds.take(k));
            self.lemma_apply_all_err(ds, k + 1);
        } else {
            assert(ds.take(k) =~= ds);
        }
    }

    /// Declares in a local pack's configuration every addon found on disk
    /// that it does not declare yet (see [`PackConfig::add_missing_addons`]).
    /// The pack must be recorded as local (exact name) and have a
    /// configuration. Nothing else changes.
    pub fn sync_local_pack(&mut self, pack_name: &str, found: &Vec<String>) -> (r: Result<
        (),
        PammError,
    >)
        ensures
            !str_views(old(self).settings().local_packs@).contains(pack_name@) ==> (r matches Err(e)
                && error_view(e) == ErrorV::LocalPackNotFound(pack_name@)),
            str_views(old(self).settings().local_packs@).contains(pack_name@) && pack_position(
                old(self).repo().packs@,
                pack_name@,
            ) is None ==> (r matches Err(e) && error_view(e) == ErrorV::PackConfigMissing(
                pack_name@,
            )),
            r is Err ==> *final(self) == *old(self),
            r is Ok ==> str_views(old(self).settings().local_packs@).contains(pack_name@)
                && pack_position(old(self).repo().packs@, pack_name@) is Some,
            r is Ok ==> ({
                let i = pack_position(old(self).repo().packs@, pack_name@)->Some_0;
                let before = old(self).repo().packs@[i];
                let after = final(self).repo().packs@[i];
                &&& final(self).settings() == old(self).settings()
                &&& final(self).repo().repo_path == old(self).repo().repo_path
                &&& final(self).repo().repo_config == old(self).repo().repo_config
                &&& final(self).repo().packs@.len() == old(self).repo().packs@.len()
                &&& forall|j: int|
                    0 <= j < old(self).repo().packs@.len() && j != i ==> final(self).repo().packs@[j]
                        == old(self).repo().packs@[j]
                &&& after.settings == before.settings
                &&& after.config.name@ == before.config.name@
                &&& after.config.parent == before.config.parent
                &&& after.config.client_params == before.config.client_params
                &&& after.config.description == before.config.description
                &&& addon_names(after.config.addons@) == addon_names(before.config.addons@)
                    + fresh_names(addon_names(before.config.addons@), str_views(found@))
                &&& forall|j: int|
                    0 <= j < before.config.addons@.len() ==> #[trigger] after.config.addons@[j].1
                        == before.config.addons@[j].1
                &&& forall|j: int|
                    before.config.addons@.len() <= j < after.config.addons@.len()
                        ==> !(#[trigger] after.config.addons@[j].1).is_optional
            }),
    {
        if !contains_str(&self.user_settings.local_packs, pack_name) {
            return Err(PammError::LocalPackNotFound(crate::text::to_owned_string(pack_name)));
        }
        let i = match self.base.find_pack(pack_name) {
            Some(i) => i,
            None => {
                return Err(PammError::PackConfigMissing(crate::text::to_owned_string(pack_name)));
            },
        };
        let ghost old_packs = self.base.packs@;
        let mut entry = self.base.packs.remove(i);
        entry.config.add_missing_addons(found);
        self.base.packs.insert(i, entry);
        proof {
            assert forall|j: int| 0 <= j < old_packs.len() && j != i implies self.base.packs@[j]
                == old_packs[j] by {
                if j < i {
                } else {
                }
            }
        }
        Ok(())
    }
}

} // verus!

verus! {

/// Adding a pack at the end leaves earlier positions as they are.
proof fn lemma_position_push(packs: Seq<PackEntry>, e: PackEntry, n: Seq<char>)
    ensures
        pack_position(packs.push(e), n) == match pack_position(packs, n) {
            Some(i) => Some(i),
            None => if e.config.name@ == n {
                Some(packs.len() as int)
            } else {
                None
            },
        },
    decreases packs.len(),
{
    if packs.len() > 0 {
        assert(packs.push(e).drop_first() =~= packs.drop_first().push(e));
        assert(packs.push(e)[0] == packs[0]);
        lemma_position_push(packs.drop_first(), e, n);
        assert(packs.drop_first().len() + 1 == packs.len());
    } else {
        assert(packs.push(e).drop_first() =~= Seq::<PackEntry>::empty());
        assert(packs.push(e)[0] == e);
        assert(pack_position(Seq::<PackEntry>::empty(), n) is None);
    }
}

/// Positions depend on the packs' names only.
proof fn lemma_position_same_names(a: Seq<PackEntry>, b: Seq<PackEntry>, n: Seq<char>)
    requires
        a.len() == b.len(),
        forall|j: int| 0 <= j < a.len() ==> (#[trigger] a[j]).config.name@ == b[j].config.name@,
    ensures
        pack_position(a, n) == pack_position(b, n),
    decreases a.len(),
{
    if a.len() > 0 {
        assert forall|j: int| 0 <= j < a.drop_first().len() implies (
        #[trigger] a.drop_first()[j]).config.name@ == b.drop_first()[j].config.name@ by {
            assert(a.drop_first()[j] == a[j + 1]);
            assert(b.drop_first()[j] == b[j + 1]);
        }
        lemma_position_same_names(a.drop_first(), b.drop_first(), n);
    }
}

/// Whether a pack is named otherwise than `name`.
pub open spec fn not_named(name: Seq<char>) -> spec_fn(PackEntry) -> bool {
    |e: PackEntry| e.config.name@ != name
}

/// The first configuration named `name`, if any.
pub open spec fn config_lookup(s: Seq<PackConfig>, name: Seq<char>) -> Option<PackConfig>
    decreases s.len(),
{
    if s.len() == 0 {
        None
    } else if s[0].name@ == name {
        Some(s[0])
    } else {
        config_lookup(s.drop_first(), name)
    }
}

/// A configuration found by name has that name.
pub proof fn lemma_config_lookup(s: Seq<PackConfig>, name: Seq<char>)
    ensures
        config_lookup(s, name) matches Some(c) ==> c.name@ == name,
    decreases s.len(),
{
    if s.len() > 0 {
        lemma_config_lookup(s.drop_first(), name);
    }
}

/// The first configuration in `s` named `name`, if any.
pub fn find_config<'a>(s: &'a Vec<PackConfig>, name: &str) -> (r: Option<&'a PackConfig>)
    ensures
        match r {
            Some(c) => config_lookup(s@, name@) == Some(*c) && c.name@ == name@,
            None => config_lookup(s@, name@) is None,
        },
{
    proof {
        lemma_config_lookup(s@, name@);
    }
    let mut i: usize = 0;
    assert(s@.skip(0) =~= s@);
    while i < s.len()
        invariant
            i <= s.len(),
            config_lookup(s@, name@) == config_lookup(s@.skip(i as int), name@),
        decreases s.len() - i,
    {
        proof {
            assert(s@.skip(i as int).drop_first() =~= s@.skip(i + 1));
        }
        if str_eq(s[i].name.as_str(), name) {
            return Some(&s[i]);
        }
        i = i + 1;
    }
    None
}

/// Settings of a pack the user has not touched: no extra launch parameters,
/// no optional addon switched off.
pub open spec fn default_settings(s: PackUserSettings) -> bool {
    s.launch_params@.len() == 0 && s.disabled_optionals@.len() == 0
}

/// Whether `after` is `before` with `config` stored: the configuration of the
/// first pack of that name replaced, its settings kept; or, where no pack
/// has the name, a new pack with default settings appended.
pub open spec fn upserted(before: Seq<PackEntry>, after: Seq<PackEntry>, config: PackConfig) -> bool {
    match pack_position(before, config.name@) {
        Some(i) => after == before.update(i, PackEntry { config, settings: before[i].settings }),
        None => {
            &&& after.len() == before.len() + 1
            &&& after.drop_last() == before
            &&& after.last().config == config
            &&& after.last().settings matches Some(s) && default_settings(s)
        },
    }
}

impl RepoHandle {
    /// Stores a pack's configuration: replaces the configuration of the pack
    /// of that name, keeping its settings, or adds the pack with default
    /// settings. Other packs are unaffected.
    pub fn upsert_pack(&mut self, config: PackConfig)
        ensures
            final(self).repo_path == old(self).repo_path,
            final(self).repo_config == old(self).repo_config,
            pack_position(final(self).packs@, config.name@) matches Some(i) && final(self).packs@[i].config
                == config,
            forall|n: Seq<char>|
                n != config.name@ ==> pack_position(final(self).packs@, n) == pack_position(
                    old(self).packs@,
                    n,
                ),
            forall|j: int|
                0 <= j < old(self).packs@.len() && old(self).packs@[j].config.name@ != config.name@
                    ==> final(self).packs@[j] == old(self).packs@[j],
            final(self).packs@.len() >= old(self).packs@.len(),
            upserted(old(self).packs@, final(self).packs@, config),
    {
        let ghost name = config.name@;
        match self.find_pack(config.name.as_str()) {
            Some(i) => {
                let ghost old_packs = self.packs@;
                let mut entry = self.packs.remove(i);
                entry.config = config;
                self.packs.insert(i, entry);
                proof {
                    assert(self.packs@[i as int].config == config);
                    assert(self.packs@ =~= old_packs.update(i as int, PackEntry { config, settings: old_packs[i as int].settings }));
                    lemma_pack_position(old_packs, name);
                    assert forall|j: int| 0 <= j < old_packs.len() && j != i implies self.packs@[j]
                        == old_packs[j] by {}
                    assert forall|n: Seq<char>| true implies pack_position(self.packs@, n)
                        == pack_position(old_packs, n) by {
                        lemma_position_same_names(self.packs@, old_packs, n);
                    }
                }
            },
            None => {
                let ghost old_packs = self.packs@;
                let settings = PackUserSettings { launch_params: Vec::new(), disabled_optionals: Vec::new() };
                let entry = PackEntry { config, settings: Some(settings) };
                self.packs.push(entry);
                proof {
                    assert(self.packs@.drop_last() =~= old_packs);
                    assert(self.packs@.last() == entry);
                    assert forall|n: Seq<char>| true implies pack_position(self.packs@, n)
                        == match pack_position(old_packs, n) {
                        Some(i) => Some(i),
                        None => if entry.config.name@ == n {
                            Some(old_packs.len() as int)
                        } else {
                            None
                        },
                    } by {
                        lemma_position_push(old_packs, entry, n);
                    }
                }
            },
        }
    }

    /// Removes every pack named `name`.
    pub fn remove_packs_named(&mut self, name: &str)
        ensures
            final(self).repo_path == old(self).repo_path,
            final(self).repo_config == old(self).repo_config,
            final(self).packs@ == old(self).packs@.filter(not_named(name@)),
    {
        let mut kept: Vec<PackEntry> = Vec::new();
        let mut all: Vec<PackEntry> = Vec::new();
        std::mem::swap(&mut all, &mut self.packs);
        let ghost orig = all@;
        let mut rev: Vec<PackEntry> = Vec::new();
        while all.len() > 0
            invariant
                orig.len() == all.len() + rev.len(),
                all@ == orig.take(all.len() as int),
                forall|j: int| 0 <= j < rev.len() ==> rev@[j] == orig[orig.len() - 1 - j],
            decreases all.len(),
        {
            let ghost n = all.len();
            let e = all.pop().unwrap();
            proof {
                assert(all@ =~= orig.take(n - 1));
            }
            rev.push(e);
        }
        let ghost pred = not_named(name@);
        proof {
            assert(orig.take(0) =~= Seq::<PackEntry>::empty());
            assert(Seq::<PackEntry>::empty().filter(pred) =~= Seq::<PackEntry>::empty()) by {
                reveal(Seq::filter);
            }
        }
        while rev.len() > 0
            invariant
                rev.len() <= orig.len(),
                pred == not_named(name@),
                forall|j: int| 0 <= j < rev.len() ==> rev@[j] == orig[orig.len() - 1 - j],
                kept@ == orig.take(orig.len() - rev.len()).filter(pred),
            decreases rev.len(),
        {
            let ghost k = orig.len() - rev.len();
            let e = rev.pop().unwrap();
            proof {
                assert(e == orig[k]);
                assert(orig.take(k + 1) =~= orig.take(k).push(orig[k]));
                orig.take(k).lemma_filter_push(orig[k], pred);
            }
            assert(pred(e) == (e.config.name@ != name@));
            if !str_eq(e.config.name.as_str(), name) {
                kept.push(e);
            }
        }
        proof {
            assert(orig.take(orig.len() as int) =~= orig);
        }
        self.packs = kept;
    }
}

impl ClientRepoHandle {
    /// Adds a pack, or replaces the configuration of the pack of that name
    /// (see [`RepoHandle::upsert_pack`]).
    pub fn add_pack(&mut self, config: PackConfig)
        ensures
            final(self).settings() == old(self).settings(),
            final(self).repo().repo_config == old(self).repo().repo_config,
            pack_position(final(self).repo().packs@, config.name@) matches Some(i) && final(self).repo().packs@[i].config
                == config,
            forall|n: Seq<char>|
                n != config.name@ ==> pack_position(final(self).repo().packs@, n) == pack_position(
                    old(self).repo().packs@,
                    n,
                ),
            forall|j: int|
                0 <= j < old(self).repo().packs@.len() && old(self).repo().packs@[j].config.name@
                    != config.name@ ==> final(self).repo().packs@[j] == old(self).repo().packs@[j],
            final(self).repo().packs@.len() >= old(self).repo().packs@.len(),
            upserted(old(self).repo().packs@, final(self).repo().packs@, config),
    {
        self.base.upsert_pack(config);
    }

    /// Removes a pack that the remote no longer offers, when the user agreed
    /// (`confirmed`); otherwise leaves it in place.
    pub fn delete_pack(&mut self, pack_name: &str, confirmed: bool)
        ensures
            final(self).settings() == old(self).settings(),
            final(self).repo().repo_config == old(self).repo().repo_config,
            confirmed ==> final(self).repo().packs@ == old(self).repo().packs@.filter(
                not_named(pack_name@),
            ),
            !confirmed ==> final(self).repo().packs@ == old(self).repo().packs@,
    {
        if confirmed {
            self.base.remove_packs_named(pack_name);
        }
    }
}

/// Writing a repository's configuration.
pub trait UpdateRepoConfig {
    /// Replaces the repository configuration.
    fn update_repo_config(&mut self, repo_config: RepoConfig) -> Result<(), PammError>;
}

impl UpdateRepoConfig for ClientRepoHandle {
    fn update_repo_config(&mut self, repo_config: RepoConfig) -> (r: Result<(), PammError>)
        ensures
            r is Ok,
            final(self).repo().repo_config == repo_config,
            final(self).repo().packs == old(self).repo().packs,
            final(self).repo().repo_path == old(self).repo().repo_path,
            final(self).settings() == old(self).settings(),
    {
        self.base.repo_config = repo_config;
        Ok(())
    }
}

/// Saving the user's settings of a pack.
pub trait SavePackSettings {
    /// Stores the user's settings of pack `pack_name`.
    fn save_pack_settings(&mut self, pack_name: &str, settings: PackUserSettings) -> Result<
        (),
        PammError,
    >;
}

impl SavePackSettings for ClientRepoHandle {
    fn save_pack_settings(&mut self, pack_name: &str, settings: PackUserSettings) -> (r: Result<
        (),
        PammError,
    >)
        ensures
            r is Ok <==> pack_position(old(self).repo().packs@, pack_name@) is Some,
            r matches Err(e) ==> error_view(e) == ErrorV::PackConfigMissing(pack_name@),
            r is Err ==> *final(self) == *old(self),
            r is Ok ==> ({
                let i = pack_position(old(self).repo().packs@, pack_name@)->Some_0;
                &&& final(self).repo().packs@.len() == old(self).repo().packs@.len()
                &&& final(self).repo().packs@[i].settings == Some(settings)
                &&& final(self).repo().packs@[i].config == old(self).repo().packs@[i].config
                &&& forall|j: int|
                    0 <= j < old(self).repo().packs@.len() && j != i ==> final(self).repo().packs@[j]
                        == old(self).repo().packs@[j]
            }),
            final(self).settings() == old(self).settings(),
            final(self).repo().repo_config == old(self).repo().repo_config,
    {
        match self.base.find_pack(pack_name) {
            Some(i) => {
                let ghost old_packs = self.base.packs@;
                let mut entry = self.base.packs.remove(i);
                entry.settings = Some(settings);
                self.base.packs.insert(i, entry);
                proof {
                    assert forall|j: int| 0 <= j < old_packs.len() && j != i implies self.base.packs@[j]
                        == old_packs[j] by {}
                }
                Ok(())
            },
            None => Err(PammError::PackConfigMissing(crate::text::to_owned_string(pack_name))),
        }
    }
}

} // verus!

verus! {

/// Whether `a` is the launch of pack `name` in `mode`, with the pack's client
/// parameters `cp`, the user's launch parameters `lp` and the mod paths `mods`.
pub open spec fn is_launch_action(
    a: LaunchAction,
    mode: LaunchMode,
    name: Seq<char>,
    cp: Seq<Seq<char>>,
    lp: Seq<Seq<char>>,
    mods: Seq<Seq<char>>,
) -> bool {
    match mode {
        LaunchMode::Steam => a matches LaunchAction::SteamPreset {
            preset_file_name,
            preset_body,
            launch_url,
        } && preset_file_name@ == preset_file_name_spec(name) && preset_body@ == lines_text(
            preset_lines(cp + lp, mods),
        ) && launch_url@ == preset_launch_url_spec(preset_file_name@),
        LaunchMode::Executable => a matches LaunchAction::Executable { args } && views(args@)
            == executable_args(cp, lp, mods),
    }
}

impl ClientRepoHandle {
    /// Decides how to launch a pack, given the paths of its mods as the game
    /// sees them (see [`ClientRepoHandle::get_addon_paths`]).
    ///
    /// Through Steam, every launch flag travels in a preset file: the pack's
    /// client parameters, then the user's launch parameters, then the mods;
    /// the `steam://run` URL names the preset. A direct launch passes the same
    /// on the command line. The pack must exist and have user settings.
    pub fn launch_pack(&self, pack_name: &str, params: &LaunchParams, mod_paths: &[String]) -> (r:
        Result<LaunchAction, PammError>)
        ensures
            match self.settings_outcome(pack_name@) {
                Ok(i) => r matches Ok(a) && is_launch_action(
                    a,
                    params.launch_mode(),
                    pack_name@,
                    str_views(self.repo().packs@[i].config.client_params@),
                    str_views(self.repo().packs@[i].settings->Some_0.launch_params@),
                    views(mod_paths@),
                ),
                Err(ev) => r matches Err(e) && error_view(e) == ev,
            },
    {
        let (config, settings) = self.pack_with_settings(pack_name)?;
        proof {
            assert(views(config.client_params@) =~= str_views(config.client_params@));
            assert(views(settings.launch_params@) =~= str_views(settings.launch_params@));
        }
        match params.mode() {
            LaunchMode::Steam => {
                let mut all = copy_strings(&config.client_params);
                let mut extra = copy_strings(&settings.launch_params);
                let ghost a = str_views(all@);
                let ghost b = str_views(extra@);
                all.append(&mut extra);
                proof {
                    assert(views(all@) =~= a + b);
                }
                let file_name = preset_file_name(pack_name);
                let body = render_preset(all.as_slice(), mod_paths);
                let url = preset_launch_url(file_name.as_str());
                Ok(LaunchAction::SteamPreset { preset_file_name: file_name, preset_body: body, launch_url: url })
            },
            LaunchMode::Executable => {
                let args = executable_launch_args(
                    config.client_params.as_slice(),
                    settings.launch_params.as_slice(),
                    mod_paths,
                );
                Ok(LaunchAction::Executable { args })
            },
        }
    }
}

/// After a confirmed deletion no pack of that name is left, so looking it up
/// fails.
pub proof fn lemma_deleted_pack_is_gone(packs: Seq<PackEntry>, name: Seq<char>)
    ensures
        pack_position(packs.filter(not_named(name)), name) is None,
{
    let f = packs.filter(not_named(name));
    lemma_pack_position(f, name);
    if pack_position(f, name) is Some {
        let i = pack_position(f, name)->Some_0;
        packs.lemma_filter_pred(not_named(name), i);
    }
}

} // verus!
