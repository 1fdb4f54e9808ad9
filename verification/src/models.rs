//! Configuration records of a repository and its packs, the library's error
//! type, and string helpers over them.
use vstd::prelude::*;

verus! {

/// Settings of one addon of a pack.
#[derive(Debug, Clone, Copy, PartialEq, Eq, Default)]
pub struct AddonSettings {
    /// Optional addons can be switched off by the user.
    pub is_optional: bool,
}

/// A pack's configuration (`<pack>/pack.config.json`).
#[derive(Debug)]
pub struct PackConfig {
    pub name: String,
    pub description: String,
    /// Launch parameters every user of the pack gets.
    pub client_params: Vec<String>,
    /// The pack's addons by name. When a name repeats, its first entry counts.
    pub addons: Vec<(String, AddonSettings)>,
    /// The pack this one builds on.
    pub parent: Option<String>,
}

/// A user's settings for one pack (`<pack>/pack.settings.json`).
#[derive(Debug)]
pub struct PackUserSettings {
    /// Launch parameters the user added.
    pub launch_params: Vec<String>,
    /// Optional addons the user switched off.
    pub disabled_optionals: Vec<String>,
}

/// A repository's configuration (`repo.config.json`), mirroring the remote.
#[derive(Debug)]
pub struct RepoConfig {
    pub name: String,
    pub description: String,
    /// The names of the packs the remote offers.
    pub packs: Vec<String>,
}

/// The local user's settings of a client repository.
#[derive(Debug)]
pub struct RepoUserSettings {
    /// The remote the repository mirrors.
    pub remote: String,
    /// Packs that exist on this machine only.
    pub local_packs: Vec<String>,
}

/// Checksums of a pack's addons by addon name. When a name repeats, its first
/// entry counts.
#[derive(Debug)]
pub struct ChecksumIndex {
    pub checksums: Vec<(String, Vec<u8>)>,
}

/// What can go wrong in the library's operations.
#[derive(Debug, PartialEq, Eq)]
pub enum PammError {
    /// The pack is not registered in the repository configuration.
    PackNotFound(String),
    /// The pack's configuration is not present.
    PackConfigMissing(String),
    /// The pack's user settings are not present.
    PackSettingsMissing(String),
    /// The operation needs a remote, and the pack exists only locally.
    LocalPackHasNoRemote(String),
    /// No local pack of that name is recorded.
    LocalPackNotFound(String),
    /// A client repository lacks its user settings file.
    MissingUserSettings,
    /// A diff was made for another pack than the one it is applied to.
    DiffPackMismatch { diff_pack: String, target_pack: String },
    /// The server configuration names no server directory.
    ServerDirNotSet,
    /// The user, asked during a configuration sync, failed or refused.
    Interaction(String),
    /// The remote publishes its files in layout `found`, not in the layout
    /// `expected` that this library reads: its tree was not rebuilt.
    RemoteLayoutMismatch { found: u64, expected: u64 },
}

/// Model of a [`PammError`].
pub enum ErrorV {
    PackNotFound(Seq<char>),
    PackConfigMissing(Seq<char>),
    PackSettingsMissing(Seq<char>),
    LocalPackHasNoRemote(Seq<char>),
    LocalPackNotFound(Seq<char>),
    MissingUserSettings,
    DiffPackMismatch(Seq<char>, Seq<char>),
    ServerDirNotSet,
    Interaction(Seq<char>),
    RemoteLayoutMismatch(u64, u64),
}

/// The model of an error.
pub open spec fn error_view(e: PammError) -> ErrorV {
    match e {
        PammError::PackNotFound(n) => ErrorV::PackNotFound(n@),
        PammError::PackConfigMissing(n) => ErrorV::PackConfigMissing(n@),
        PammError::PackSettingsMissing(n) => ErrorV::PackSettingsMissing(n@),
        PammError::LocalPackHasNoRemote(n) => ErrorV::LocalPackHasNoRemote(n@),
        PammError::LocalPackNotFound(n) => ErrorV::LocalPackNotFound(n@),
        PammError::MissingUserSettings => ErrorV::MissingUserSettings,
        PammError::DiffPackMismatch { diff_pack, target_pack } => ErrorV::DiffPackMismatch(
            diff_pack@,
            target_pack@,
        ),
        PammError::ServerDirNotSet => ErrorV::ServerDirNotSet,
        PammError::Interaction(m) => ErrorV::Interaction(m@),
        PammError::RemoteLayoutMismatch { found, expected } => ErrorV::RemoteLayoutMismatch(
            found,
            expected,
        ),
    }
}

/// The views of a sequence of strings.
pub open spec fn str_views(s: Seq<String>) -> Seq<Seq<char>> {
    Seq::new(s.len(), |i: int| s[i]@)
}

/// The names of a sequence of addons.
pub open spec fn addon_names(s: Seq<(String, AddonSettings)>) -> Seq<Seq<char>> {
    Seq::new(s.len(), |i: int| s[i].0@)
}

/// Whether `s` holds a string equal to `x`.
pub fn contains_str(s: &Vec<String>, x: &str) -> (r: bool)
    ensures
        r == str_views(s@).contains(x@),
{
    let mut i: usize = 0;
    while i < s.len()
        invariant
            i <= s.len(),
            forall|j: int| 0 <= j < i ==> s@[j]@ != x@,
        decreases s.len() - i,
    {
        if str_eq(s[i].as_str(), x) {
            assert(str_views(s@)[i as int] == x@);
            return true;
        }
        i = i + 1;
    }
    assert forall|j: int| 0 <= j < str_views(s@).len() implies str_views(s@)[j] != x@ by {
        assert(str_views(s@)[j] == s@[j]@);
    }
    false
}

/// Whether two strings hold the same characters.
pub fn str_eq(a: &str, b: &str) -> (r: bool)
    ensures
        r == (a@ == b@),
{
    let ac = crate::text::chars_of(a);
    let bc = crate::text::chars_of(b);
    if ac.len() != bc.len() {
        return false;
    }
    let mut i: usize = 0;
    while i < ac.len()
        invariant
            ac@ == a@,
            bc@ == b@,
            ac.len() == bc.len(),
            i <= ac.len(),
            forall|j: int| 0 <= j < i ==> a@[j] == b@[j],
        decreases ac.len() - i,
    {
        if ac[i] != bc[i] {
            return false;
        }
        i = i + 1;
    }
    assert(a@ =~= b@);
    true
}

/// The code of a character with ASCII upper case mapped to lower case.
pub open spec fn ascii_lower(c: char) -> u32 {
    if 'A' <= c && c <= 'Z' {
        (c as u32 + 32) as u32
    } else {
        c as u32
    }
}

/// Equality up to ASCII case.
pub open spec fn eq_ignore_ascii_case(a: Seq<char>, b: Seq<char>) -> bool {
    a.len() == b.len() && forall|i: int| 0 <= i < a.len() ==> ascii_lower(a[i]) == ascii_lower(b[i])
}

fn ascii_lower_exec(c: char) -> (r: u32)
    ensures
        r == ascii_lower(c),
{
    if 'A' <= c && c <= 'Z' {
        c as u32 + 32
    } else {
        c as u32
    }
}

/// Compares two pack names for identity. Pack names are folder names, and
/// some filesystems are case-insensitive, so two names differing only in
/// ASCII case would share one directory.
pub fn names_match(a: &str, b: &str) -> (r: bool)
    ensures
        r == eq_ignore_ascii_case(a@, b@),
{
    let ac = crate::text::chars_of(a);
    let bc = crate::text::chars_of(b);
    if ac.len() != bc.len() {
        return false;
    }
    let mut i: usize = 0;
    while i < ac.len()
        invariant
            ac@ == a@,
            bc@ == b@,
            ac.len() == bc.len(),
            i <= ac.len(),
            forall|j: int| 0 <= j < i ==> ascii_lower(a@[j]) == ascii_lower(b@[j]),
        decreases ac.len() - i,
    {
        if ascii_lower_exec(ac[i]) != ascii_lower_exec(bc[i]) {
            return false;
        }
        i = i + 1;
    }
    true
}

/// Copies a vector of strings.
pub fn copy_strings(v: &Vec<String>) -> (r: Vec<String>)
    ensures
        str_views(r@) == str_views(v@),
{
    let mut r: Vec<String> = Vec::new();
    let mut i: usize = 0;
    while i < v.len()
        invariant
            i <= v.len(),
            r@.len() == i,
            forall|j: int| 0 <= j < i ==> #[trigger] r@[j]@ == v@[j]@,
        decreases v.len() - i,
    {
        r.push(v[i].clone());
        i = i + 1;
    }
    assert(str_views(r@) =~= str_views(v@));
    r
}

/// The first settings recorded for addon `name`, if any.
pub open spec fn addon_lookup(s: Seq<(String, AddonSettings)>, name: Seq<char>) -> Option<
    AddonSettings,
>
    decreases s.len(),
{
    if s.len() == 0 {
        None
    } else if s[0].0@ == name {
        Some(s[0].1)
    } else {
        addon_lookup(s.drop_first(), name)
    }
}

/// The addons a user gets: required addons, and optional ones unless all
/// optionals are off or the user switched that addon off.
pub open spec fn addon_enabled(
    settings: AddonSettings,
    name: Seq<char>,
    user: Seq<Seq<char>>,
    disable_optionals: bool,
) -> bool {
    !settings.is_optional || (!disable_optionals && !user.contains(name))
}

/// Whether an addon stays when the optional addons `user_disabled` are
/// switched off.
pub open spec fn kept_addon(user_disabled: Seq<Seq<char>>) -> spec_fn((String, AddonSettings)) -> bool {
    |a: (String, AddonSettings)| addon_enabled(a.1, a.0@, user_disabled, false)
}

/// Two configurations that hold the same values.
pub open spec fn same_config(a: PackConfig, b: PackConfig) -> bool {
    &&& a.name@ == b.name@
    &&& a.description@ == b.description@
    &&& str_views(a.client_params@) == str_views(b.client_params@)
    &&& addon_names(a.addons@) == addon_names(b.addons@)
    &&& a.addons@.len() == b.addons@.len()
    &&& forall|i: int| 0 <= i < a.addons@.len() ==> #[trigger] a.addons@[i].1 == b.addons@[i].1
    &&& (a.parent is Some <==> b.parent is Some)
    &&& (a.parent matches Some(p) ==> p@ == b.parent->Some_0@)
}

impl PackConfig {
    /// A copy of this configuration.
    pub fn copy(&self) -> (r: PackConfig)
        ensures
            same_config(r, *self),
            r.name@ == self.name@,
            r.description@ == self.description@,
            str_views(r.client_params@) == str_views(self.client_params@),
            addon_names(r.addons@) == addon_names(self.addons@),
            forall|i: int| 0 <= i < r.addons@.len() ==> #[trigger] r.addons@[i].1 == self.addons@[i].1,
            r.addons@.len() == self.addons@.len(),
            r.parent is Some == self.parent is Some,
            r.parent matches Some(p) ==> p@ == self.parent->Some_0@,
    {
        let mut addons: Vec<(String, AddonSettings)> = Vec::new();
        let mut i: usize = 0;
        while i < self.addons.len()
            invariant
                i <= self.addons.len(),
                addons@.len() == i,
                forall|j: int| 0 <= j < i ==> #[trigger] addons@[j].0@ == self.addons@[j].0@,
                forall|j: int| 0 <= j < i ==> #[trigger] addons@[j].1 == self.addons@[j].1,
            decreases self.addons.len() - i,
        {
            addons.push((self.addons[i].0.clone(), self.addons[i].1));
            i = i + 1;
        }
        assert(addon_names(addons@) =~= addon_names(self.addons@));
        let parent = match &self.parent {
            Some(p) => Some(p.clone()),
            None => None,
        };
        PackConfig {
            name: self.name.clone(),
            description: self.description.clone(),
            client_params: copy_strings(&self.client_params),
            addons,
            parent,
        }
    }

    /// Whether an addon named `name` is declared.
    pub fn has_addon(&self, name: &str) -> (r: bool)
        ensures
            r == addon_names(self.addons@).contains(name@),
    {
        let mut i: usize = 0;
        while i < self.addons.len()
            invariant
                i <= self.addons.len(),
                forall|j: int| 0 <= j < i ==> self.addons@[j].0@ != name@,
            decreases self.addons.len() - i,
        {
            if str_eq(self.addons[i].0.as_str(), name) {
                assert(addon_names(self.addons@)[i as int] == name@);
                return true;
            }
            i = i + 1;
        }
        assert forall|j: int| 0 <= j < addon_names(self.addons@).len() implies addon_names(
            self.addons@,
        )[j] != name@ by {
            assert(addon_names(self.addons@)[j] == self.addons@[j].0@);
        }
        false
    }

    /// Declares every addon of `found` not declared yet, with default
    /// settings (required), after the declared ones and in the order found.
    pub fn add_missing_addons(&mut self, found: &Vec<String>)
        ensures
            final(self).name@ == old(self).name@,
            final(self).parent == old(self).parent,
            final(self).client_params == old(self).client_params,
            final(self).description == old(self).description,
            addon_names(final(self).addons@) == addon_names(old(self).addons@) + fresh_names(
                addon_names(old(self).addons@),
                str_views(found@),
            ),
            final(self).addons@.len() >= old(self).addons@.len(),
            forall|i: int|
                0 <= i < old(self).addons@.len() ==> #[trigger] final(self).addons@[i].1 == old(self).addons@[i].1,
            forall|i: int|
                old(self).addons@.len() <= i < final(self).addons@.len() ==> !(#[trigger] final(self).addons@[i].1).is_optional,
    {
        let ghost existing = addon_names(old(self).addons@);
        let mut i: usize = 0;
        while i < found.len()
            invariant
                i <= found.len(),
                existing == addon_names(old(self).addons@),
                self.name == old(self).name,
                self.parent == old(self).parent,
                self.client_params == old(self).client_params,
                self.description == old(self).description,
                self.addons@.len() >= old(self).addons@.len(),
                addon_names(self.addons@) == existing + fresh_names(
                    existing,
                    str_views(found@).take(i as int),
                ),
                forall|j: int|
                    0 <= j < old(self).addons@.len() ==> #[trigger] self.addons@[j].1 == old(self).addons@[j].1,
                forall|j: int|
                    old(self).addons@.len() <= j < self.addons@.len() ==> !(#[trigger] self.addons@[j].1).is_optional,
            decreases found.len() - i,
        {
            let ghost before = self.addons@;
            let ghost t = str_views(found@).take(i + 1);
            proof {
                assert(t.drop_last() =~= str_views(found@).take(i as int));
                assert(t.last() == found@[i as int]@);
            }
            if !self.has_addon(found[i].as_str()) {
                self.addons.push((found[i].clone(), AddonSettings { is_optional: false }));
                proof {
                    lemma_contains_concat(existing, fresh_names(existing, t.drop_last()), t.last());
                    assert(addon_names(self.addons@) =~= addon_names(before).push(found@[i as int]@));
                }
            } else {
                proof {
                    lemma_contains_concat(existing, fresh_names(existing, t.drop_last()), t.last());
                }
            }
            i = i + 1;
        }
        proof {
            assert(str_views(found@).take(found.len() as int) =~= str_views(found@));
        }
    }

    /// Leaves out the optional addons the user switched off in `settings`;
    /// every other addon stays, in order.
    pub fn remove_disabled_optionals(&mut self, settings: &PackUserSettings)
        ensures
            final(self).name == old(self).name,
            final(self).description == old(self).description,
            final(self).parent == old(self).parent,
            final(self).client_params == old(self).client_params,
            final(self).addons@ == old(self).addons@.filter(
                kept_addon(str_views(settings.disabled_optionals@)),
            ),
    {
        let ghost pred = kept_addon(str_views(settings.disabled_optionals@));
        let ghost orig = self.addons@;
        let mut kept: Vec<(String, AddonSettings)> = Vec::new();
        let mut i: usize = 0;
        proof {
            assert(orig.take(0) =~= Seq::<(String, AddonSettings)>::empty());
            assert(Seq::<(String, AddonSettings)>::empty().filter(pred) =~= Seq::<(String, AddonSettings)>::empty()) by {
                reveal(Seq::filter);
            }
        }
        while i < self.addons.len()
            invariant
                i <= self.addons.len(),
                orig == self.addons@,
                pred == kept_addon(str_views(settings.disabled_optionals@)),
                kept@ == orig.take(i as int).filter(pred),
            decreases self.addons.len() - i,
        {
            proof {
                assert(orig.take(i + 1) =~= orig.take(i as int).push(orig[i as int]));
                orig.take(i as int).lemma_filter_push(orig[i as int], pred);
            }
            let (name, addon) = (&self.addons[i].0, self.addons[i].1);
            if !addon.is_optional || !contains_str(&settings.disabled_optionals, name.as_str()) {
                kept.push((name.clone(), addon));
            }
            i = i + 1;
        }
        proof {
            assert(orig.take(orig.len() as int) =~= orig);
        }
        self.addons = kept;
    }

    /// Brings the declared addons in line with the addons found on disk: the
    /// result declares exactly the found addons, once each in the order
    /// found, each keeping its declared settings or getting default ones
    /// (required) when it was not declared.
    pub fn sync_addons_with_index(&mut self, found: &Vec<String>)
        ensures
            final(self).name@ == old(self).name@,
            final(self).parent == old(self).parent,
            final(self).client_params == old(self).client_params,
            final(self).description == old(self).description,
            addon_names(final(self).addons@) == fresh_names(Seq::empty(), str_views(found@)),
            forall|i: int|
                0 <= i < final(self).addons@.len() ==> #[trigger] final(self).addons@[i].1
                    == settings_or_default(addon_lookup(old(self).addons@, final(self).addons@[i].0@)),
    {
        let mut out: Vec<(String, AddonSettings)> = Vec::new();
        let mut i: usize = 0;
        proof {
            assert(addon_names(out@) =~= Seq::<Seq<char>>::empty());
        }
        while i < found.len()
            invariant
                i <= found.len(),
                addon_names(out@) == fresh_names(Seq::empty(), str_views(found@).take(i as int)),
                forall|j: int|
                    0 <= j < out@.len() ==> #[trigger] out@[j].1 == settings_or_default(
                        addon_lookup(self.addons@, out@[j].0@),
                    ),
            decreases found.len() - i,
        {
            let ghost before = out@;
            let ghost t = str_views(found@).take(i + 1);
            proof {
                assert(t.drop_last() =~= str_views(found@).take(i as int));
                assert(t.last() == found@[i as int]@);
            }
            if !addons_contain(&out, found[i].as_str()) {
                let settings = lookup_settings(&self.addons, found[i].as_str());
                out.push((found[i].clone(), settings));
                proof {
                    lemma_contains_concat(Seq::empty(), fresh_names(Seq::empty(), t.drop_last()), t.last());
                    assert(addon_names(out@) =~= addon_names(before).push(found@[i as int]@));
                }
            } else {
                proof {
                    lemma_contains_concat(Seq::empty(), fresh_names(Seq::empty(), t.drop_last()), t.last());
                }
            }
            i = i + 1;
        }
        proof {
            assert(str_views(found@).take(found.len() as int) =~= str_views(found@));
        }
        self.addons = out;
    }
}

/// The names of `found` that `existing` does not hold, each once, in the
/// order of their first occurrence.
pub open spec fn fresh_names(existing: Seq<Seq<char>>, found: Seq<Seq<char>>) -> Seq<Seq<char>>
    decreases found.len(),
{
    if found.len() == 0 {
        Seq::empty()
    } else {
        let before = fresh_names(existing, found.drop_last());
        if existing.contains(found.last()) || before.contains(found.last()) {
            before
        } else {
            before.push(found.last())
        }
    }
}

/// The declared settings, or the default ones (required) for an undeclared addon.
pub open spec fn settings_or_default(s: Option<AddonSettings>) -> AddonSettings {
    match s {
        Some(x) => x,
        None => AddonSettings { is_optional: false },
    }
}

proof fn lemma_contains_concat(a: Seq<Seq<char>>, b: Seq<Seq<char>>, x: Seq<char>)
    ensures
        (a + b).contains(x) == (a.contains(x) || b.contains(x)),
{
    if (a + b).contains(x) {
        let k = choose|k: int| 0 <= k < (a + b).len() && (a + b)[k] == x;
        if k < a.len() {
            assert(a[k] == x);
        } else {
            assert(b[k - a.len()] == x);
        }
    }
    if a.contains(x) {
        let k = choose|k: int| 0 <= k < a.len() && a[k] == x;
        assert((a + b)[k] == x);
    }
    if b.contains(x) {
        let k = choose|k: int| 0 <= k < b.len() && b[k] == x;
        assert((a + b)[k + a.len()] == x);
    }
}

/// Whether `s` declares an addon named `name`.
fn addons_contain(s: &Vec<(String, AddonSettings)>, name: &str) -> (r: bool)
    ensures
        r == addon_names(s@).contains(name@),
{
    let mut i: usize = 0;
    while i < s.len()
        invariant
            i <= s.len(),
            forall|j: int| 0 <= j < i ==> s@[j].0@ != name@,
        decreases s.len() - i,
    {
        if str_eq(s[i].0.as_str(), name) {
            assert(addon_names(s@)[i as int] == name@);
            return true;
        }
        i = i + 1;
    }
    assert forall|j: int| 0 <= j < addon_names(s@).len() implies addon_names(s@)[j] != name@ by {
        assert(addon_names(s@)[j] == s@[j].0@);
    }
    false
}

/// The settings of the first addon named `name`, or the default ones.
fn lookup_settings(s: &Vec<(String, AddonSettings)>, name: &str) -> (r: AddonSettings)
    ensures
        r == settings_or_default(addon_lookup(s@, name@)),
{
    let mut i: usize = 0;
    assert(s@.skip(0) =~= s@);
    while i < s.len()
        invariant
            i <= s.len(),
            addon_lookup(s@, name@) == addon_lookup(s@.skip(i as int), name@),
        decreases s.len() - i,
    {
        proof {
            assert(s@.skip(i as int).drop_first() =~= s@.skip(i + 1));
        }
        if str_eq(s[i].0.as_str(), name) {
            return s[i].1;
        }
        i = i + 1;
    }
    AddonSettings { is_optional: false }
}

} // verus!
