//! The watcher that notices when the configuration may have changed.
//!
//! The watcher decides; its host watches directories and loads the configuration, and reports what
//! came of it. Times are in nanoseconds.
use vstd::prelude::*;

use super::clock::{elapsed, later};
use super::events::{config_event_triggers_reload, FsEvent};
use crate::paths::{FilePath, PathView};
use crate::tables::KeySet;
use crate::values::Value;

verus! {

/// How long the watcher waits behind an event for more of them.
pub const RELOAD_DEBOUNCE: u64 = 200_000_000;

/// How long the watcher waits for events where there was none.
pub const IDLE_WAIT: u64 = 500_000_000;

/// The watcher.
pub struct ConfigWatcher {
    watched_global: Option<FilePath>,
    watched_project_dirs: KeySet<FilePath>,
    pending_reload_at: Option<u64>,
}

/// The watcher.
#[verifier::ext_equal]
pub struct ConfigWatcherView {
    /// The directory of the global configuration, if it is watched.
    pub watched_global: Option<PathView>,
    /// The directories of the configurations of projects that are watched.
    pub watched_project_dirs: Set<PathView>,
    /// When the configuration is to be loaded anew.
    pub pending_reload_at: Option<u64>,
}

impl DeepView for ConfigWatcher {
    type V = ConfigWatcherView;

    closed spec fn deep_view(&self) -> ConfigWatcherView {
        ConfigWatcherView {
            watched_global: self.watched_global.deep_view(),
            watched_project_dirs: self.watched_project_dirs.deep_view(),
            pending_reload_at: self.pending_reload_at,
        }
    }
}

impl ConfigWatcherView {
    /// Whether a directory is that of the global configuration, which is watched in any case.
    pub open spec fn is_global(self, dir: PathView) -> bool {
        self.watched_global == Some(dir)
    }

    /// With the directories left that are still wanted. The directory of the global configuration
    /// counts as watched where it is wanted.
    pub open spec fn narrowed(self, wanted: Set<PathView>) -> ConfigWatcherView {
        ConfigWatcherView {
            watched_project_dirs: Set::new(
                |dir: PathView|
                    wanted.contains(dir) && (self.watched_project_dirs.contains(dir)
                        || self.is_global(dir)),
            ),
            ..self
        }
    }

    /// With a directory watched, if that could be started.
    pub open spec fn added(self, dir: PathView, started: bool) -> ConfigWatcherView {
        if started {
            ConfigWatcherView {
                watched_project_dirs: self.watched_project_dirs.insert(dir),
                ..self
            }
        } else {
            self
        }
    }

    /// With a reload to come, unless one is to come already.
    pub open spec fn scheduled(self, now: u64) -> ConfigWatcherView {
        match self.pending_reload_at {
            Some(_) => self,
            None => ConfigWatcherView {
                pending_reload_at: Some(super::clock::after(now, RELOAD_DEBOUNCE)),
                ..self
            },
        }
    }

    /// Behind an event that may have changed the configuration, or another one.
    pub open spec fn noted(self, may_change: bool, now: u64) -> ConfigWatcherView {
        if may_change {
            self.scheduled(now)
        } else {
            self
        }
    }

    /// Whether the configuration is to be loaded anew.
    pub open spec fn is_due(self, now: u64) -> bool {
        self.pending_reload_at matches Some(at) && now >= at
    }
}

impl ConfigWatcher {
    /// How the directories of projects are spelled that are watched.
    pub closed spec fn dir_spellings(&self) -> Set<Seq<u8>> {
        crate::paths::spellings(self.watched_project_dirs.members())
    }

    /// A watcher that watches nothing.
    pub fn new() -> (watcher: Self)
        ensures
            watcher.dir_spellings() == Set::<Seq<u8>>::empty(),
            watcher.deep_view() == (ConfigWatcherView {
                watched_global: None,
                watched_project_dirs: Set::empty(),
                pending_reload_at: None,
            }),
    {
        let watcher = ConfigWatcher {
            watched_global: None,
            watched_project_dirs: KeySet::new(),
            pending_reload_at: None,
        };
        assert(watcher.dir_spellings() =~= Set::<Seq<u8>>::empty());
        watcher
    }

    /// The directory to watch for the global configuration: the one that holds its file, so that
    /// files are noticed that are put in its place.
    pub fn global_dir(path: Option<&FilePath>) -> (dir: Option<FilePath>)
        ensures
            dir.deep_view() == (match path {
                Some(path) => path.deep_view().parent(),
                None => None,
            }),
            dir matches Some(dir) ==> dir.spelled() == crate::paths::parent_spelling(
                path->0.spelled(),
            ),
    {
        match path {
            Some(path) => path.parent(),
            None => None,
        }
    }

    /// Takes the directory of the global configuration, if watching it could be started.
    pub fn set_global(&mut self, dir: FilePath, started: bool)
        ensures
            final(self).dir_spellings() == old(self).dir_spellings(),
            final(self).deep_view() == (ConfigWatcherView {
                watched_global: if started {
                    Some(dir.deep_view())
                } else {
                    old(self).deep_view().watched_global
                },
                ..old(self).deep_view()
            }),
    {
        if started {
            self.watched_global = Some(dir);
        }
    }

    fn is_global(&self, dir: &FilePath) -> (yes: bool)
        ensures
            yes == self.deep_view().is_global(dir.deep_view()),
    {
        match &self.watched_global {
            Some(global) => global.same(dir),
            None => false,
        }
    }

    /// Gives up the directories that are not wanted any more. Lists those that are not to be
    /// watched any more, and those that are wanted and not watched yet. The directory of the global
    /// configuration stays watched.
    pub fn reconcile(&mut self, wanted: &KeySet<FilePath>) -> (dirs: (Vec<FilePath>, Vec<FilePath>))
        ensures
            ({
                let before = old(self).deep_view();
                let after = final(self).deep_view();
                &&& after == before.narrowed(wanted.deep_view())
                &&& forall|dir: PathView| #[trigger]
                    dirs.0.deep_view().contains(dir) == (before.watched_project_dirs.contains(dir)
                        && !wanted.deep_view().contains(dir) && !before.is_global(dir))
                &&& dirs.0.deep_view().no_duplicates()
                &&& dirs.1.deep_view().no_duplicates()
                &&& forall|dir: PathView| #[trigger]
                    dirs.1.deep_view().contains(dir) == (wanted.deep_view().contains(dir)
                        && !after.watched_project_dirs.contains(dir))
            }),
            ({
                let names = crate::paths::spellings(wanted.members());
                &&& crate::paths::spellings_of(dirs.0@) <= old(self).dir_spellings()
                &&& crate::paths::spellings_of(dirs.1@) <= names
                &&& final(self).dir_spellings() <= old(self).dir_spellings().union(names)
            }),
    {
        let unwatch = self.begin_dirs(wanted);
        let watch = self.dirs_to_watch(wanted);
        (unwatch, watch)
    }

    fn begin_dirs(&mut self, wanted: &KeySet<FilePath>) -> (unwatch: Vec<FilePath>)
        ensures
            final(self).deep_view() == old(self).deep_view().narrowed(wanted.deep_view()),
            forall|dir: PathView| #[trigger]
                unwatch.deep_view().contains(dir) == (old(
                    self,
                ).deep_view().watched_project_dirs.contains(dir) && !wanted.deep_view().contains(dir)
                    && !old(self).deep_view().is_global(dir)),
            unwatch.deep_view().no_duplicates(),
            crate::paths::spellings_of(unwatch@) <= old(self).dir_spellings(),
            final(self).dir_spellings() <= old(self).dir_spellings().union(
                crate::paths::spellings(wanted.members()),
            ),
    {
        let ghost before = self.deep_view();
        let mut unwatch: Vec<FilePath> = Vec::new();
        let mut kept: KeySet<FilePath> = KeySet::new();
        let count: usize = self.watched_project_dirs.len();
        let ghost listed = self.watched_project_dirs.listed();
        for i in 0..count
            invariant
                count == listed.len(),
                listed == self.watched_project_dirs.listed(),
                before == self.deep_view(),
                before.watched_project_dirs == listed.to_set(),
                forall|dir: PathView| #[trigger]
                    kept.deep_view().contains(dir) ==> before.watched_project_dirs.contains(dir)
                        && wanted.deep_view().contains(dir),
                listed.no_duplicates(),
                unwatch.deep_view().no_duplicates(),
                forall|j: int|
                    i <= j < listed.len() ==> !unwatch.deep_view().contains(#[trigger] listed[j]),
                forall|j: int|
                    0 <= j < i && wanted.deep_view().contains(#[trigger] listed[j])
                        ==> kept.deep_view().contains(listed[j]),
                forall|dir: PathView| #[trigger]
                    unwatch.deep_view().contains(dir) ==> before.watched_project_dirs.contains(dir)
                        && !wanted.deep_view().contains(dir) && !before.is_global(dir),
                forall|j: int|
                    0 <= j < i && !wanted.deep_view().contains(#[trigger] listed[j])
                        && !before.is_global(listed[j]) ==> unwatch.deep_view().contains(listed[j]),
                crate::paths::spellings_of(unwatch@) <= self.dir_spellings(),
                crate::paths::spellings(kept.members()) <= self.dir_spellings(),
        {
            let dir = self.watched_project_dirs.at(i);
            let ghost held = unwatch.deep_view();
            let ghost earlier = unwatch@;
            assert(self.dir_spellings().contains(dir.spelled()));
            if wanted.contains(dir) {
                kept.insert(dir.dup());
            } else if !self.is_global(dir) {
                unwatch.push(dir.dup());
                proof {
                    let now = unwatch.deep_view();
                    assert(now =~= held.push(listed[i as int]));
                    crate::lists::lemma_push_new(held, listed[i as int]);
                    crate::paths::lemma_spelling_pushed(earlier, unwatch@);
                    assert forall|d: PathView| #[trigger] now.contains(d) implies
                        before.watched_project_dirs.contains(d) && !wanted.deep_view().contains(d)
                            && !before.is_global(d) by {
                        let n = choose|n: int| 0 <= n < now.len() && now[n] == d;
                        if n < held.len() {
                            assert(held.contains(held[n]));
                        }
                    }
                    assert forall|j: int|
                        0 <= j < i + 1 && !wanted.deep_view().contains(#[trigger] listed[j])
                            && !before.is_global(listed[j]) implies now.contains(listed[j]) by {
                        if j < i {
                            let n = choose|n: int| 0 <= n < held.len() && held[n] == listed[j];
                            assert(now[n] == listed[j]);
                        } else {
                            assert(now[held.len() as int] == listed[j]);
                        }
                    }
                }
            }
        }
        proof {
            assert forall|dir: PathView|
                before.watched_project_dirs.contains(dir) && wanted.deep_view().contains(dir) implies
                #[trigger] kept.deep_view().contains(dir) by {
                let j = choose|j: int| 0 <= j < listed.len() && listed[j] == dir;
                assert(kept.deep_view().contains(listed[j]));
            }
            assert forall|dir: PathView|
                before.watched_project_dirs.contains(dir) && !wanted.deep_view().contains(dir)
                    && !before.is_global(dir) implies #[trigger] unwatch.deep_view().contains(
                dir,
            ) by {
                let j = choose|j: int| 0 <= j < listed.len() && listed[j] == dir;
                assert(unwatch.deep_view().contains(listed[j]));
            }
        }
        if let Some(global) = &self.watched_global {
            if let Some(dir) = wanted.get(global) {
                kept.insert(dir.dup());
            }
        }
        self.watched_project_dirs = kept;
        assert(self.deep_view().watched_project_dirs =~= before.narrowed(
            wanted.deep_view(),
        ).watched_project_dirs);
        unwatch
    }

    fn dirs_to_watch(&self, wanted: &KeySet<FilePath>) -> (dirs: Vec<FilePath>)
        ensures
            forall|dir: PathView| #[trigger]
                dirs.deep_view().contains(dir) == (wanted.deep_view().contains(dir)
                    && !self.deep_view().watched_project_dirs.contains(dir)),
            dirs.deep_view().no_duplicates(),
            crate::paths::spellings_of(dirs@) <= crate::paths::spellings(wanted.members()),
    {
        let mut dirs: Vec<FilePath> = Vec::new();
        let count: usize = wanted.len();
        let ghost listed = wanted.listed();
        let ghost watched = self.deep_view().watched_project_dirs;
        for i in 0..count
            invariant
                count == listed.len(),
                listed == wanted.listed(),
                watched == self.deep_view().watched_project_dirs,
                listed.no_duplicates(),
                dirs.deep_view().no_duplicates(),
                forall|j: int|
                    i <= j < listed.len() ==> !dirs.deep_view().contains(#[trigger] listed[j]),
                forall|dir: PathView| #[trigger]
                    dirs.deep_view().contains(dir) ==> wanted.deep_view().contains(dir)
                        && !watched.contains(dir),
                forall|j: int|
                    0 <= j < i && !watched.contains(#[trigger] listed[j])
                        ==> dirs.deep_view().contains(listed[j]),
                crate::paths::spellings_of(dirs@) <= crate::paths::spellings(wanted.members()),
        {
            let dir = wanted.at(i);
            let ghost held = dirs.deep_view();
            let ghost earlier = dirs@;
            assert(crate::paths::spellings(wanted.members()).contains(dir.spelled()));
            if !self.watched_project_dirs.contains(dir) {
                dirs.push(dir.dup());
                proof {
                    let now = dirs.deep_view();
                    assert(now =~= held.push(listed[i as int]));
                    crate::lists::lemma_push_new(held, listed[i as int]);
                    crate::paths::lemma_spelling_pushed(earlier, dirs@);
                    assert forall|d: PathView| #[trigger] now.contains(d) implies
                        wanted.deep_view().contains(d) && !watched.contains(d) by {
                        let n = choose|n: int| 0 <= n < now.len() && now[n] == d;
                        if n < held.len() {
                            assert(held.contains(held[n]));
                        }
                    }
                    assert forall|j: int|
                        0 <= j < i + 1 && !watched.contains(#[trigger] listed[j]) implies
                        now.contains(listed[j]) by {
                        if j < i {
                            let n = choose|n: int| 0 <= n < held.len() && held[n] == listed[j];
                            assert(now[n] == listed[j]);
                        } else {
                            assert(now[held.len() as int] == listed[j]);
                        }
                    }
                }
            }
        }
        assert forall|dir: PathView|
            wanted.deep_view().contains(dir) && !watched.contains(dir) implies
            #[trigger] dirs.deep_view().contains(dir) by {
            let j = choose|j: int| 0 <= j < listed.len() && listed[j] == dir;
            assert(dirs.deep_view().contains(listed[j]));
        }
        dirs
    }

    /// Takes a directory, if watching it could be started.
    pub fn add_dir(&mut self, dir: FilePath, started: bool)
        ensures
            final(self).deep_view() == old(self).deep_view().added(dir.deep_view(), started),
            final(self).dir_spellings() <= old(self).dir_spellings().insert(dir.spelled()),
    {
        if started {
            self.watched_project_dirs.insert(dir);
        }
    }

    /// How long the host may wait for events.
    pub fn wait_time(&self, now: u64) -> (time: u64)
        ensures
            time == (match self.deep_view().pending_reload_at {
                Some(at) => super::clock::passed(at, now),
                None => IDLE_WAIT,
            }),
    {
        match self.pending_reload_at {
            Some(at) => elapsed(at, now),
            None => IDLE_WAIT,
        }
    }

    /// Notes an event, if one came, and whether events came faster than they were taken. If the
    /// configuration may have changed, a reload is to come; of several events the first sets the
    /// time. Says whether the configuration is to be loaded anew now.
    pub fn note(&mut self, event: Option<&FsEvent>, overflow: bool, now: u64) -> (reload: bool)
        ensures
            final(self).dir_spellings() == old(self).dir_spellings(),
            ({
                let before = old(self).deep_view();
                let noted = before.noted(
                    overflow || (event is Some && super::events::may_change_config(*event->0)),
                    now,
                );
                &&& reload == noted.is_due(now)
                &&& final(self).deep_view() == (if reload {
                    ConfigWatcherView { pending_reload_at: None, ..noted }
                } else {
                    noted
                })
            }),
    {
        if let Some(event) = event {
            if config_event_triggers_reload(event) {
                self.schedule(now);
            }
        }
        if overflow {
            self.schedule(now);
        }
        self.take_reload(now)
    }

    fn schedule(&mut self, now: u64)
        ensures
            final(self).dir_spellings() == old(self).dir_spellings(),
            final(self).deep_view() == old(self).deep_view().scheduled(now),
    {
        if self.pending_reload_at.is_none() {
            self.pending_reload_at = Some(later(now, RELOAD_DEBOUNCE));
        }
    }

    fn take_reload(&mut self, now: u64) -> (due: bool)
        ensures
            final(self).dir_spellings() == old(self).dir_spellings(),
            due == old(self).deep_view().is_due(now),
            final(self).deep_view() == (if due {
                ConfigWatcherView { pending_reload_at: None, ..old(self).deep_view() }
            } else {
                old(self).deep_view()
            }),
    {
        match self.pending_reload_at {
            Some(at) => {
                if now >= at {
                    self.pending_reload_at = None;
                    true
                } else {
                    false
                }
            },
            None => false,
        }
    }
}

/// The version of the configuration behind a reload, whether it could be loaded or not: clients may
/// be able to load theirs.
pub fn next_version(version: u64) -> (next: u64)
    ensures
        next == (if version == u64::MAX {
            0
        } else {
            version + 1
        }),
{
    if version == u64::MAX {
        0
    } else {
        version + 1
    }
}

/// However many events follow the first one, the reload comes when the first one said.
pub proof fn bursts_do_not_put_reloads_off(watcher: ConfigWatcherView, first: u64, second: u64)
    ensures
        watcher.scheduled(first).scheduled(second) == watcher.scheduled(first),
{
}

/// The watcher with directories watched, as far as that could be started.
pub open spec fn added_all(
    watcher: ConfigWatcherView,
    dirs: Seq<PathView>,
    started: Seq<bool>,
) -> ConfigWatcherView
    decreases dirs.len(),
{
    if dirs.len() == 0 || started.len() != dirs.len() {
        watcher
    } else {
        added_all(watcher, dirs.drop_last(), started.drop_last()).added(
            dirs.last(),
            started.last(),
        )
    }
}

/// Once every directory that is wanted could be watched, just these are.
pub proof fn reconciled_dirs_are_the_wanted_ones(
    watcher: ConfigWatcherView,
    wanted: Set<PathView>,
    dirs: Seq<PathView>,
    started: Seq<bool>,
)
    requires
        forall|dir: PathView| #[trigger]
            dirs.contains(dir) == (wanted.contains(dir) && !watcher.narrowed(
                wanted,
            ).watched_project_dirs.contains(dir)),
        started.len() == dirs.len(),
        forall|i: int| 0 <= i < started.len() ==> started[i],
    ensures
        added_all(watcher.narrowed(wanted), dirs, started).watched_project_dirs == wanted,
{
    lemma_added_all(watcher.narrowed(wanted), dirs, started);
    assert(added_all(watcher.narrowed(wanted), dirs, started).watched_project_dirs =~= wanted);
}

proof fn lemma_added_all(watcher: ConfigWatcherView, dirs: Seq<PathView>, started: Seq<bool>)
    requires
        started.len() == dirs.len(),
        forall|i: int| 0 <= i < started.len() ==> started[i],
    ensures
        forall|dir: PathView| #[trigger]
            added_all(watcher, dirs, started).watched_project_dirs.contains(dir) == (
            watcher.watched_project_dirs.contains(dir) || dirs.contains(dir)),
    decreases dirs.len(),
{
    if dirs.len() > 0 {
        let before = dirs.drop_last();
        assert forall|i: int| 0 <= i < started.drop_last().len() implies started.drop_last()[i] by {
            assert(started.drop_last()[i] == started[i]);
        }
        assert(started[started.len() - 1]);
        lemma_added_all(watcher, before, started.drop_last());
        assert forall|dir: PathView| #[trigger]
            added_all(watcher, dirs, started).watched_project_dirs.contains(dir) == (
            watcher.watched_project_dirs.contains(dir) || dirs.contains(dir)) by {
            assert(added_all(
                watcher,
                before,
                started.drop_last(),
            ).watched_project_dirs.contains(dir) == (watcher.watched_project_dirs.contains(dir)
                || before.contains(dir)));
            if before.contains(dir) {
                let i = choose|i: int| 0 <= i < before.len() && before[i] == dir;
                assert(dirs[i] == dir);
            }
            if dirs.contains(dir) {
                let i = choose|i: int| 0 <= i < dirs.len() && dirs[i] == dir;
                if i < before.len() {
                    assert(before[i] == dir);
                }
            }
            assert(dirs[dirs.len() - 1] == dirs.last());
        }
    }
}

/// A reload comes a fifth of a second behind the first event that asks for it, not earlier.
pub proof fn reloads_follow_events(watcher: ConfigWatcherView, now: u64, then: u64)
    requires
        watcher.pending_reload_at is None,
        now + 200_000_000 <= u64::MAX,
    ensures
        watcher.noted(true, now).is_due(then) <==> then >= now + 200_000_000,
        watcher.noted(false, now) == watcher,
        !watcher.is_due(then),
        watcher.noted(true, now) == (ConfigWatcherView {
            pending_reload_at: watcher.noted(true, now).pending_reload_at,
            ..watcher
        }),
{
}

/// Behind a reconciliation just those directories count as watched that are wanted and were watched before, be it
/// as that of the global configuration.
pub proof fn unwanted_directories_are_given_up(
    watcher: ConfigWatcherView,
    wanted: Set<PathView>,
    dir: PathView,
)
    ensures
        watcher.narrowed(wanted).watched_project_dirs.contains(dir) <==> wanted.contains(dir) && (
        watcher.watched_project_dirs.contains(dir) || watcher.watched_global == Some(dir)),
        watcher.narrowed(wanted).watched_global == watcher.watched_global,
        watcher.narrowed(wanted).pending_reload_at == watcher.pending_reload_at,
{
}

} // verus!
