//! Synchronising a client repository's configuration with its remote: packs
//! the remote dropped are removed (when the user agrees), packs it added are
//! added, and the others take the remote's configuration.
use vstd::prelude::*;

use crate::handle::{config_lookup, find_config, not_named, pack_position, upserted, ClientRepoHandle, PackEntry, UpdateRepoConfig};
use crate::models::{contains_str, copy_strings, same_config, str_views, PackConfig, PammError, RepoConfig};

verus! {

/// What a configuration sync asked or told its user, with the reply.
pub enum SyncEvent {
    /// Whether the pack the remote dropped may be deleted locally.
    RemovalAsked(Seq<char>, Result<bool, PammError>),
    /// That the remote added the pack.
    AdditionTold(Seq<char>, Result<(), PammError>),
}

/// The questions a configuration sync asks its user.
///
/// An implementation records in `log` every question and notice it received,
/// with its reply, and says through `may_answer` and `may_acknowledge` which
/// replies it can give; the sync's contract speaks of what it asks and what
/// it does with each reply in those terms.
pub trait ConfigSyncInteractor {
    /// Whether `answer` is a reply this interactor can give when asked if the
    /// pack `pack_name` may be deleted. An implementation that does not say
    /// may give any reply.
    open spec fn may_answer(&self, pack_name: Seq<char>, answer: Result<bool, PammError>) -> bool {
        true
    }

    /// Whether `answer` is a reply this interactor can give when told that
    /// the remote added the pack `pack_name`. An implementation that does not
    /// say may give any reply.
    open spec fn may_acknowledge(&self, pack_name: Seq<char>, answer: Result<(), PammError>) -> bool {
        true
    }

    /// The questions and notices received so far, with the replies given.
    /// A verified implementation defines it from its own state; this default
    /// only lets code outside the verifier implement the trait.
    open spec fn log(&self) -> Seq<SyncEvent> {
        Seq::empty()
    }

    /// Whether the pack the remote dropped may be deleted locally.
    fn confirm_pack_removal(&mut self, pack_name: &str) -> (r: Result<bool, PammError>)
        ensures
            old(self).may_answer(pack_name@, r),
            final(self).log() == old(self).log().push(SyncEvent::RemovalAsked(pack_name@, r)),
            forall|n: Seq<char>, a: Result<bool, PammError>|
                #[trigger] final(self).may_answer(n, a) == old(self).may_answer(n, a),
            forall|n: Seq<char>, a: Result<(), PammError>|
                #[trigger] final(self).may_acknowledge(n, a) == old(self).may_acknowledge(n, a),
    ;

    /// Tells the user that the remote added a pack.
    fn notify_pack_added(&mut self, pack_name: &str) -> (r: Result<(), PammError>)
        ensures
            old(self).may_acknowledge(pack_name@, r),
            final(self).log() == old(self).log().push(SyncEvent::AdditionTold(pack_name@, r)),
            forall|n: Seq<char>, a: Result<bool, PammError>|
                #[trigger] final(self).may_answer(n, a) == old(self).may_answer(n, a),
            forall|n: Seq<char>, a: Result<(), PammError>|
                #[trigger] final(self).may_acknowledge(n, a) == old(self).may_acknowledge(n, a),
    ;
}

/// An interactor that always confirms pack removal and does nothing on pack
/// addition.
pub struct DummyConfigSyncInteractor {
    events: Ghost<Seq<SyncEvent>>,
}

impl DummyConfigSyncInteractor {
    /// An interactor that was asked nothing yet.
    pub fn new() -> (r: Self)
        ensures
            r.log() == Seq::<SyncEvent>::empty(),
    {
        DummyConfigSyncInteractor { events: Ghost(Seq::empty()) }
    }
}

impl ConfigSyncInteractor for DummyConfigSyncInteractor {
    open spec fn may_answer(&self, pack_name: Seq<char>, answer: Result<bool, PammError>) -> bool {
        answer == Ok::<bool, PammError>(true)
    }

    open spec fn may_acknowledge(&self, pack_name: Seq<char>, answer: Result<(), PammError>) -> bool {
        answer == Ok::<(), PammError>(())
    }

    closed spec fn log(&self) -> Seq<SyncEvent> {
        self.events@
    }

    fn confirm_pack_removal(&mut self, pack_name: &str) -> (r: Result<bool, PammError>) {
        self.events = Ghost(self.events@.push(SyncEvent::RemovalAsked(pack_name@, Ok(true))));
        Ok(true)
    }

    fn notify_pack_added(&mut self, pack_name: &str) -> (r: Result<(), PammError>) {
        self.events = Ghost(self.events@.push(SyncEvent::AdditionTold(pack_name@, Ok(()))));
        Ok(())
    }
}

/// Pack `name` holds the configuration the remote published for it.
pub open spec fn synced(packs: Seq<PackEntry>, configs: Seq<PackConfig>, name: Seq<char>) -> bool {
    config_lookup(configs, name) matches Some(c) && pack_position(packs, name) matches Some(i)
        && same_config(packs[i].config, c)
}

/// Whether a pack is named `name`.
pub open spec fn named(name: Seq<char>) -> spec_fn(PackEntry) -> bool {
    |e: PackEntry| e.config.name@ == name
}

proof fn lemma_filter_update(s: Seq<PackEntry>, i: int, e: PackEntry, p: spec_fn(PackEntry) -> bool)
    requires
        0 <= i < s.len(),
        !p(s[i]),
        !p(e),
    ensures
        s.update(i, e).filter(p) == s.filter(p),
    decreases s.len(),
{
    let u = s.update(i, e);
    assert(u =~= u.drop_last().push(u.last()));
    assert(s =~= s.drop_last().push(s.last()));
    u.drop_last().lemma_filter_push(u.last(), p);
    s.drop_last().lemma_filter_push(s.last(), p);
    if i < s.len() - 1 {
        assert(u.drop_last() =~= s.drop_last().update(i, e));
        lemma_filter_update(s.drop_last(), i, e, p);
    } else {
        assert(u.drop_last() =~= s.drop_last());
    }
}

proof fn lemma_filter_narrower(s: Seq<PackEntry>, q: spec_fn(PackEntry) -> bool, p: spec_fn(PackEntry) -> bool)
    requires
        forall|x: PackEntry| #[trigger] p(x) ==> q(x),
    ensures
        s.filter(q).filter(p) == s.filter(p),
    decreases s.len(),
{
    if s.len() == 0 {
        assert(s.filter(q) =~= Seq::<PackEntry>::empty()) by {
            reveal(Seq::filter);
        }
        assert(s.filter(p) =~= Seq::<PackEntry>::empty()) by {
            reveal(Seq::filter);
        }
        assert(Seq::<PackEntry>::empty().filter(p) =~= Seq::<PackEntry>::empty()) by {
            reveal(Seq::filter);
        }
    } else {
        lemma_filter_narrower(s.drop_last(), q, p);
        assert(s =~= s.drop_last().push(s.last()));
        s.drop_last().lemma_filter_push(s.last(), q);
        s.drop_last().lemma_filter_push(s.last(), p);
        s.drop_last().filter(q).lemma_filter_push(s.last(), p);
    }
}

proof fn lemma_filter_disjoint(s: Seq<PackEntry>, q: spec_fn(PackEntry) -> bool, p: spec_fn(PackEntry) -> bool)
    requires
        forall|x: PackEntry| #[trigger] p(x) ==> !q(x),
    ensures
        s.filter(q).filter(p).len() == 0,
    decreases s.len(),
{
    if s.len() == 0 {
        assert(s.filter(q) =~= Seq::<PackEntry>::empty()) by {
            reveal(Seq::filter);
        }
        assert(Seq::<PackEntry>::empty().filter(p) =~= Seq::<PackEntry>::empty()) by {
            reveal(Seq::filter);
        }
    } else {
        lemma_filter_disjoint(s.drop_last(), q, p);
        assert(s =~= s.drop_last().push(s.last()));
        s.drop_last().lemma_filter_push(s.last(), q);
        s.drop_last().filter(q).lemma_filter_push(s.last(), p);
    }
}

/// Storing a configuration named otherwise than `n` keeps the packs named `n`.
proof fn lemma_upsert_keeps_others(before: Seq<PackEntry>, after: Seq<PackEntry>, config: PackConfig, n: Seq<char>)
    requires
        upserted(before, after, config),
        config.name@ != n,
    ensures
        after.filter(named(n)) == before.filter(named(n)),
{
    crate::handle::lemma_pack_position(before, config.name@);
    match pack_position(before, config.name@) {
        Some(i) => {
            lemma_filter_update(before, i, PackEntry { config, settings: before[i].settings }, named(n));
        },
        None => {
            assert(after =~= before.push(after.last()));
            before.lemma_filter_push(after.last(), named(n));
        },
    }
}

/// Whether two lists of pack names hold the same names.
pub open spec fn same_names(a: Seq<Seq<char>>, b: Seq<Seq<char>>) -> bool {
    forall|n: Seq<char>| #[trigger] a.contains(n) <==> #[trigger] b.contains(n)
}

/// Whether the remote published a configuration for each of its packs.
pub open spec fn all_published(packs: Seq<String>, configs: Seq<PackConfig>) -> bool {
    forall|k: int| 0 <= k < packs.len() ==> config_lookup(configs, #[trigger] packs[k]@) is Some
}

/// The names of `s` that `other` lacks, each once, in the order in which
/// `s` first holds them.
pub open spec fn new_names(s: Seq<Seq<char>>, other: Seq<Seq<char>>) -> Seq<Seq<char>>
    decreases s.len(),
{
    if s.len() == 0 {
        Seq::empty()
    } else {
        let before = new_names(s.drop_last(), other);
        if other.contains(s.last()) || before.contains(s.last()) {
            before
        } else {
            before.push(s.last())
        }
    }
}

/// `new_names(s, other)` holds exactly the names of `s` that `other` lacks,
/// each once.
pub proof fn lemma_new_names(s: Seq<Seq<char>>, other: Seq<Seq<char>>)
    ensures
        forall|n: Seq<char>| #[trigger] new_names(s, other).contains(n) <==> s.contains(n) && !other.contains(n),
        new_names(s, other).no_duplicates(),
    decreases s.len(),
{
    if s.len() > 0 {
        lemma_new_names(s.drop_last(), other);
        let before = new_names(s.drop_last(), other);
        assert forall|n: Seq<char>| #[trigger] new_names(s, other).contains(n) <==> s.contains(n) && !other.contains(n) by {
            if s.contains(n) && !s.drop_last().contains(n) {
                let i = choose|i: int| 0 <= i < s.len() && s[i] == n;
                if i < s.len() - 1 {
                    assert(s.drop_last()[i] == n);
                }
                assert(n == s.last());
            }
            if s.drop_last().contains(n) {
                let i = choose|i: int| 0 <= i < s.drop_last().len() && s.drop_last()[i] == n;
                assert(s[i] == n);
            }
            if !(other.contains(s.last()) || before.contains(s.last())) {
                let after = before.push(s.last());
                assert(after[before.len() as int] == s.last());
                if before.contains(n) {
                    let k = choose|k: int| 0 <= k < before.len() && before[k] == n;
                    assert(after[k] == n);
                }
                if after.contains(n) && n != s.last() {
                    let k = choose|k: int| 0 <= k < after.len() && after[k] == n;
                    assert(before[k] == n);
                }
                assert(s[s.len() - 1] == s.last());
            } else {
                assert(s[s.len() - 1] == s.last());
            }
        }
    }
}

/// No reply of the interactor on the packs the remote dropped or added is
/// an error.
pub open spec fn never_fails<I: ConfigSyncInteractor>(
    interactor: I,
    local: Seq<Seq<char>>,
    remote: Seq<Seq<char>>,
) -> bool {
    &&& forall|n: Seq<char>, e: PammError|
        local.contains(n) && !remote.contains(n) ==> !#[trigger] interactor.may_answer(n, Err(e))
    &&& forall|n: Seq<char>, e: PammError|
        remote.contains(n) && !local.contains(n) ==> !#[trigger] interactor.may_acknowledge(n, Err(e))
}

/// The events recorded in `after` past those of `before`.
pub open spec fn new_events(before: Seq<SyncEvent>, after: Seq<SyncEvent>) -> Seq<SyncEvent> {
    after.skip(before.len() as int)
}

/// The packs named `n` went where the reply was yes, and stayed unchanged
/// where it was no.
pub open spec fn removal_follows(before: Seq<PackEntry>, after: Seq<PackEntry>, n: Seq<char>, yes: bool) -> bool {
    if yes {
        after.filter(named(n)).len() == 0
    } else {
        after.filter(named(n)) == before.filter(named(n))
    }
}

/// The notices of the packs `names`, each acknowledged.
pub open spec fn addition_events(names: Seq<Seq<char>>) -> Seq<SyncEvent> {
    names.map_values(|n: Seq<char>| SyncEvent::AdditionTold(n, Ok(())))
}

/// Synchronises the repository's configuration with the remote's
/// `remote_repo_config` and the pack configurations the remote published.
///
/// First the interactor is asked, once, about each pack of the local
/// configuration that the remote dropped, in their order, and the pack is
/// removed exactly when the reply is yes; then each pack the remote added is
/// added and the interactor told of it, once, in the remote's order; then
/// every pack both know takes the remote's configuration; finally the
/// repository configuration becomes the remote's. A pack whose configuration
/// the remote did not publish fails the sync, and an error of the interactor
/// is returned as it is, as the last event it recorded. Where every
/// configuration was published and the interactor cannot fail on the packs it
/// is asked about or told of, the sync succeeds; so it does where the remote
/// lists the same packs as the local configuration.
#[verifier::loop_isolation(false)]
pub fn sync_pack_config<I: ConfigSyncInteractor>(
    repo_handle: &mut ClientRepoHandle,
    remote_repo_config: RepoConfig,
    remote_pack_configs: &Vec<PackConfig>,
    interactor: &mut I,
) -> (r: Result<(), PammError>)
    ensures
        final(repo_handle).settings() == old(repo_handle).settings(),
        r is Ok ==> final(repo_handle).repo().repo_config == remote_repo_config,
        r is Ok ==> forall|k: int|
            0 <= k < remote_repo_config.packs@.len() ==> synced(
                final(repo_handle).repo().packs@,
                remote_pack_configs@,
                #[trigger] remote_repo_config.packs@[k]@,
            ),
        (exists|k: int|
            0 <= k < remote_repo_config.packs@.len() && config_lookup(
                remote_pack_configs@,
                #[trigger] remote_repo_config.packs@[k]@,
            ) is None) ==> r is Err,
        all_published(remote_repo_config.packs@, remote_pack_configs@) && never_fails(
            *old(interactor),
            str_views(old(repo_handle).repo().repo_config.packs@),
            str_views(remote_repo_config.packs@),
        ) ==> r is Ok,
        all_published(remote_repo_config.packs@, remote_pack_configs@) && same_names(
            str_views(old(repo_handle).repo().repo_config.packs@),
            str_views(remote_repo_config.packs@),
        ) ==> r is Ok,
        final(interactor).log().take(old(interactor).log().len() as int) == old(interactor).log(),
        r is Ok ==> new_events(old(interactor).log(), final(interactor).log()).len() == new_names(
            str_views(old(repo_handle).repo().repo_config.packs@),
            str_views(remote_repo_config.packs@),
        ).len() + new_names(
            str_views(remote_repo_config.packs@),
            str_views(old(repo_handle).repo().repo_config.packs@),
        ).len(),
        r is Ok ==> forall|i: int|
            0 <= i < new_names(
                str_views(old(repo_handle).repo().repo_config.packs@),
                str_views(remote_repo_config.packs@),
            ).len() ==> (#[trigger] new_events(old(interactor).log(), final(interactor).log())[i] matches SyncEvent::RemovalAsked(
                n,
                Ok(yes),
            ) && n == new_names(
                str_views(old(repo_handle).repo().repo_config.packs@),
                str_views(remote_repo_config.packs@),
            )[i] && removal_follows(old(repo_handle).repo().packs@, final(repo_handle).repo().packs@, n, yes)),
        r is Ok ==> new_events(old(interactor).log(), final(interactor).log()).skip(
            new_names(
                str_views(old(repo_handle).repo().repo_config.packs@),
                str_views(remote_repo_config.packs@),
            ).len() as int,
        ) == addition_events(
            new_names(
                str_views(remote_repo_config.packs@),
                str_views(old(repo_handle).repo().repo_config.packs@),
            ),
        ),
        r is Ok ==> forall|n: Seq<char>|
            !str_views(old(repo_handle).repo().repo_config.packs@).contains(n) && !str_views(
                remote_repo_config.packs@,
            ).contains(n) ==> #[trigger] final(repo_handle).repo().packs@.filter(named(n))
                == old(repo_handle).repo().packs@.filter(named(n)),
        r matches Err(e) ==> {
            ||| e matches PammError::PackConfigMissing(m) && str_views(
                remote_repo_config.packs@,
            ).contains(m@) && config_lookup(remote_pack_configs@, m@) is None
            ||| final(interactor).log().len() > old(interactor).log().len() && (final(interactor).log().last() matches SyncEvent::RemovalAsked(n, Err(x))
                && x == e && str_views(old(repo_handle).repo().repo_config.packs@).contains(n) && !str_views(
                remote_repo_config.packs@,
            ).contains(n))
            ||| final(interactor).log().len() > old(interactor).log().len() && (final(interactor).log().last() matches SyncEvent::AdditionTold(n, Err(x))
                && x == e && str_views(remote_repo_config.packs@).contains(n) && !str_views(
                old(repo_handle).repo().repo_config.packs@,
            ).contains(n))
        },
{
    let local = copy_strings(&repo_handle.repo_handle().repo_config.packs);
    let remote_packs = &remote_repo_config.packs;
    let ghost rp = str_views(remote_packs@);
    let ghost lp = str_views(local@);
    let ghost orig = repo_handle.repo().packs@;
    let ghost log0 = interactor.log();
    let ghost dropped = new_names(lp, rp);
    let ghost added = new_names(rp, lp);
    proof {
        lemma_new_names(lp, rp);
        lemma_new_names(rp, lp);
    }
    // Packs the remote dropped, each asked about once.
    let mut asked: Vec<String> = Vec::new();
    let mut i: usize = 0;
    while i < local.len()
        invariant
            i <= local.len(),
            repo_handle.settings() == old(repo_handle).settings(),
            orig == old(repo_handle).repo().packs@,
            log0 == old(interactor).log(),
            str_views(asked@) == new_names(lp.take(i as int), rp),
            interactor.log().len() == log0.len() + asked@.len(),
            interactor.log().take(log0.len() as int) == log0,
            forall|n: Seq<char>, a: Result<bool, PammError>|
                #[trigger] interactor.may_answer(n, a) == old(interactor).may_answer(n, a),
            forall|n: Seq<char>, a: Result<(), PammError>|
                #[trigger] interactor.may_acknowledge(n, a) == old(interactor).may_acknowledge(n, a),
            forall|k: int|
                0 <= k < asked@.len() ==> (#[trigger] new_events(log0, interactor.log())[k] matches SyncEvent::RemovalAsked(
                    n,
                    Ok(yes),
                ) && n == asked@[k]@ && removal_follows(orig, repo_handle.repo().packs@, n, yes)),
            forall|n: Seq<char>|
                !str_views(asked@).contains(n) ==> #[trigger] repo_handle.repo().packs@.filter(named(n))
                    == orig.filter(named(n)),
        decreases local.len() - i,
    {
        let ghost a = local@[i as int]@;
        let ghost before_names = str_views(asked@);
        proof {
            assert(lp[i as int] == a);
            assert(lp.take(i + 1).drop_last() =~= lp.take(i as int));
            assert(lp.take(i + 1).last() == a);
        }
        if !contains_str(remote_packs, local[i].as_str()) && !contains_str(&asked, local[i].as_str()) {
            let ghost log_before = interactor.log();
            let answer = interactor.confirm_pack_removal(local[i].as_str());
            let yes = match answer {
                Ok(o) => o,
                Err(e) => {
                    proof {
                        assert(lp.contains(a));
                        assert(interactor.log().last() == SyncEvent::RemovalAsked(a, Err(e)));
                        assert(interactor.log().take(log0.len() as int) =~= log_before.take(log0.len() as int));
                    }
                    return Err(e);
                },
            };
            let ghost before = repo_handle.repo().packs@;
            repo_handle.delete_pack(local[i].as_str(), yes);
            asked.push(crate::text::to_owned_string(local[i].as_str()));
            proof {
                assert(str_views(asked@) =~= before_names.push(a));
                assert(interactor.log().take(log0.len() as int) =~= log_before.take(log0.len() as int));
                assert(new_events(log0, interactor.log()) =~= new_events(log0, log_before).push(
                    SyncEvent::RemovalAsked(a, Ok(yes)),
                ));
                assert(!before_names.contains(a));
                assert forall|n: Seq<char>| n != a implies #[trigger] repo_handle.repo().packs@.filter(named(n))
                    == before.filter(named(n)) by {
                    if yes {
                        assert forall|x: PackEntry| #[trigger] named(n)(x) implies not_named(a)(x) by {}
                        lemma_filter_narrower(before, not_named(a), named(n));
                    }
                }
                if yes {
                    assert forall|x: PackEntry| #[trigger] named(a)(x) implies !not_named(a)(x) by {}
                    lemma_filter_disjoint(before, not_named(a), named(a));
                }
                assert(removal_follows(orig, repo_handle.repo().packs@, a, yes));
                assert forall|k: int|
                    0 <= k < asked@.len() implies (#[trigger] new_events(log0, interactor.log())[k] matches SyncEvent::RemovalAsked(
                    n,
                    Ok(yes),
                ) && n == asked@[k]@ && removal_follows(orig, repo_handle.repo().packs@, n, yes)) by {
                    if k < asked@.len() - 1 {
                        assert(new_events(log0, interactor.log())[k] == new_events(log0, log_before)[k]);
                        assert(asked@[k]@ == before_names[k]);
                        assert(before_names.contains(before_names[k]));
                    }
                }
                assert forall|n: Seq<char>|
                    !str_views(asked@).contains(n) implies #[trigger] repo_handle.repo().packs@.filter(named(n))
                        == orig.filter(named(n)) by {
                    assert(str_views(asked@)[before_names.len() as int] == a);
                    if before_names.contains(n) {
                        let k = choose|k: int| 0 <= k < before_names.len() && before_names[k] == n;
                        assert(str_views(asked@)[k] == n);
                    }
                }
            }
        } else {
            proof {
                assert(rp.contains(a) || before_names.contains(a));
            }
        }
        i = i + 1;
    }
    let ghost mid = repo_handle.repo().packs@;
    let ghost log1 = interactor.log();
    proof {
        assert(lp.take(local.len() as int) =~= lp);
        assert(str_views(asked@) == dropped);
        assert(new_events(log0, log1).len() == dropped.len());
    }
    // Packs the remote added, each told of once.
    let mut told: Vec<String> = Vec::new();
    let mut k: usize = 0;
    while k < remote_packs.len()
        invariant
            k <= remote_packs.len(),
            repo_handle.settings() == old(repo_handle).settings(),
            str_views(told@) == new_names(rp.take(k as int), lp),
            interactor.log().len() == log1.len() + told@.len(),
            interactor.log().take(log1.len() as int) == log1,
            forall|n: Seq<char>, a: Result<bool, PammError>|
                #[trigger] interactor.may_answer(n, a) == old(interactor).may_answer(n, a),
            forall|n: Seq<char>, a: Result<(), PammError>|
                #[trigger] interactor.may_acknowledge(n, a) == old(interactor).may_acknowledge(n, a),
            interactor.log().skip(log1.len() as int) == addition_events(str_views(told@)),
            forall|m: int|
                0 <= m < k && !lp.contains(#[trigger] rp[m]) ==> synced(
                    repo_handle.repo().packs@,
                    remote_pack_configs@,
                    rp[m],
                ),
            forall|m: int| 0 <= m < k ==> config_lookup(remote_pack_configs@, #[trigger] rp[m]) is Some,
            forall|n: Seq<char>|
                !rp.contains(n) ==> #[trigger] repo_handle.repo().packs@.filter(named(n)) == mid.filter(named(n)),
        decreases remote_packs.len() - k,
    {
        let name = remote_packs[k].as_str();
        let ghost told_names = str_views(told@);
        proof {
            assert(rp[k as int] == name@);
            assert(rp.contains(name@));
            assert(rp.take(k + 1).drop_last() =~= rp.take(k as int));
            assert(rp.take(k + 1).last() == name@);
        }
        let cfg = match find_config(remote_pack_configs, name) {
            Some(c) => c.copy(),
            None => {
                return Err(PammError::PackConfigMissing(crate::text::to_owned_string(name)));
            },
        };
        if !contains_str(&local, name) {
            let ghost before = repo_handle.repo().packs@;
            let ghost cfg_v = cfg;
            repo_handle.add_pack(cfg);
            proof {
                assert(cfg_v.name@ == name@);
                assert forall|n: Seq<char>| n != name@ implies #[trigger] repo_handle.repo().packs@.filter(
                    named(n),
                ) == before.filter(named(n)) by {
                    lemma_upsert_keeps_others(before, repo_handle.repo().packs@, cfg_v, n);
                }
                assert forall|m: int|
                    0 <= m <= k && !lp.contains(#[trigger] rp[m]) implies synced(
                    repo_handle.repo().packs@,
                    remote_pack_configs@,
                    rp[m],
                ) by {
                    if rp[m] != name@ {
                        let j = pack_position(before, rp[m])->Some_0;
                        crate::handle::lemma_pack_position(before, rp[m]);
                    }
                }
            }
            if !contains_str(&told, name) {
                let ghost log_before = interactor.log();
                let ack = interactor.notify_pack_added(name);
                match ack {
                    Ok(u) => {
                        told.push(crate::text::to_owned_string(name));
                        proof {
                            assert(u == ());
                            assert(str_views(told@) =~= told_names.push(name@));
                            assert(interactor.log().take(log1.len() as int) =~= log_before.take(log1.len() as int));
                            assert(interactor.log().skip(log1.len() as int) =~= log_before.skip(log1.len() as int).push(
                                SyncEvent::AdditionTold(name@, Ok(())),
                            ));
                            assert(addition_events(str_views(told@)) =~= addition_events(told_names).push(
                                SyncEvent::AdditionTold(name@, Ok(())),
                            ));
                        }
                    },
                    Err(e) => {
                        proof {
                            assert(!lp.contains(name@));
                            assert(interactor.log().last() == SyncEvent::AdditionTold(name@, Err(e)));
                            assert(interactor.log().take(log0.len() as int) =~= log1.take(log0.len() as int));
                        }
                        return Err(e);
                    },
                }
            } else {
                proof {
                    assert(told_names.contains(name@));
                }
            }
        } else {
            proof {
                assert(lp.contains(name@));
            }
        }
        k = k + 1;
    }
    proof {
        assert(rp.take(remote_packs.len() as int) =~= rp);
        assert(str_views(told@) == added);
    }
    // Packs both know take the remote's configuration.
    let mut k: usize = 0;
    while k < remote_packs.len()
        invariant
            k <= remote_packs.len(),
            repo_handle.settings() == old(repo_handle).settings(),
            forall|m: int|
                0 <= m < remote_packs.len() && !lp.contains(#[trigger] rp[m]) ==> synced(
                    repo_handle.repo().packs@,
                    remote_pack_configs@,
                    rp[m],
                ),
            forall|m: int|
                0 <= m < k && lp.contains(#[trigger] rp[m]) ==> synced(
                    repo_handle.repo().packs@,
                    remote_pack_configs@,
                    rp[m],
                ),
            forall|m: int|
                0 <= m < remote_packs.len() ==> config_lookup(remote_pack_configs@, #[trigger] rp[m]) is Some,
            forall|n: Seq<char>|
                !rp.contains(n) ==> #[trigger] repo_handle.repo().packs@.filter(named(n)) == mid.filter(named(n)),
        decreases remote_packs.len() - k,
    {
        let name = remote_packs[k].as_str();
        proof {
            assert(rp[k as int] == name@);
            assert(rp.contains(name@));
        }
        if contains_str(&local, name) {
            let cfg = match find_config(remote_pack_configs, name) {
                Some(c) => c.copy(),
                None => {
                    return Err(PammError::PackConfigMissing(crate::text::to_owned_string(name)));
                },
            };
            let ghost before = repo_handle.repo().packs@;
            let ghost cfg_v = cfg;
            repo_handle.add_pack(cfg);
            proof {
                assert(cfg_v.name@ == name@);
                assert forall|n: Seq<char>| n != name@ implies #[trigger] repo_handle.repo().packs@.filter(
                    named(n),
                ) == before.filter(named(n)) by {
                    lemma_upsert_keeps_others(before, repo_handle.repo().packs@, cfg_v, n);
                }
                assert forall|m: int| 0 <= m < remote_packs.len() && rp[m] != name@ && synced(before, remote_pack_configs@, rp[m]) implies synced(
                    repo_handle.repo().packs@,
                    remote_pack_configs@,
                    #[trigger] rp[m],
                ) by {
                    crate::handle::lemma_pack_position(before, rp[m]);
                }
            }
        }
        k = k + 1;
    }
    proof {
        assert forall|m: int| 0 <= m < remote_packs.len() implies synced(
            repo_handle.repo().packs@,
            remote_pack_configs@,
            #[trigger] rp[m],
        ) by {
            if lp.contains(rp[m]) {
            } else {
            }
        }
        assert forall|m: int| 0 <= m < remote_packs.len() implies #[trigger] remote_packs@[m]@ == rp[m] by {}
        let log2 = interactor.log();
        assert(new_events(log0, log2).take(dropped.len() as int) =~= new_events(log0, log1));
        assert(new_events(log0, log2).skip(dropped.len() as int) =~= log2.skip(log1.len() as int));
        assert forall|i: int| 0 <= i < dropped.len() implies (#[trigger] new_events(log0, log2)[i] matches SyncEvent::RemovalAsked(
            n,
            Ok(yes),
        ) && n == dropped[i] && removal_follows(orig, repo_handle.repo().packs@, n, yes)) by {
            assert(new_events(log0, log2)[i] == new_events(log0, log1)[i]);
            assert(asked@[i]@ == dropped[i]);
            assert(dropped.contains(dropped[i]));
            assert(repo_handle.repo().packs@.filter(named(dropped[i])) == mid.filter(named(dropped[i])));
        }
        assert(log2.take(log0.len() as int) =~= log1.take(log0.len() as int));
    }
    repo_handle.update_repo_config(remote_repo_config)?;
    Ok(())
}

} // verus!
