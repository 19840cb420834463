//! Taking over a repository and a configuration in an old format.

use vstd::prelude::*;
use vstd::string::*;

use crate::collection::{entry_of, has_key, keys_ascend, with_entry_laws, Keyed};
use crate::commands::Command;
use crate::config::file::{contents_text, is_load_outcome, is_resolved, is_written, join_path, path_in, ConfigFile};
use crate::config::resolved::TestrConfig;
use crate::error::{Error, Failure, Result};
use crate::gather::reversed;
use crate::repository::{is_failure, no_metadata, test_names, RunId, TestId, TestResult, TestRun, TestStatus};
use crate::store::{failing_names_are, result_names, times_map, with_times, Store, StoredRun};
use crate::text::compose::{cat2, cat3, cat4, cat5, cat7};
use crate::text::number::{count_text, decimal};
use crate::ui::{outputs, Line, Transcript};

verus! {

/// Command that takes over a repository and a configuration in an old format.
#[derive(Debug)]
pub struct UpgradeCommand {
    /// Where the project is.
    pub base_path: Option<String>,
}

/// Where the project is.
pub open spec fn upgrade_base(c: UpgradeCommand) -> Seq<char> {
    match c.base_path {
        Some(p) => p@,
        None => "."@,
    }
}

/// The usual durations after the first `n` runs have been recorded.
pub open spec fn times_after(runs: Seq<StoredRun>, n: nat) -> Map<Seq<char>, nat>
    decreases n,
{
    if n == 0 {
        Map::empty()
    } else {
        let s = runs[n - 1].run.results@;
        with_times(times_after(runs, (n - 1) as nat), s, s.len())
    }
}

/// The latest run in which a test failed, among the first `n`.
pub open spec fn latest_failure(runs: Seq<StoredRun>, n: nat, t: Seq<char>) -> Option<nat>
    decreases n,
{
    if n == 0 {
        None
    } else {
        let s = runs[n - 1].run.results@;
        if has_key(s, t) && is_failure(entry_of(s, t).status) {
            Some((n - 1) as nat)
        } else {
            latest_failure(runs, (n - 1) as nat, t)
        }
    }
}

/// The latest run in which a test failed has a failure of it, and no later one has.
pub proof fn latest_failure_is_the_last(runs: Seq<StoredRun>, n: nat, t: Seq<char>)
    requires
        n <= runs.len(),
    ensures
        match latest_failure(runs, n, t) {
            Some(i) => i < n && has_key(runs[i as int].run.results@, t) && is_failure(
                entry_of(runs[i as int].run.results@, t).status,
            ) && forall|k: int|
                i < k < n ==> !(has_key((#[trigger] runs[k]).run.results@, t) && is_failure(
                    entry_of(runs[k].run.results@, t).status,
                )),
            None => forall|k: int|
                0 <= k < n ==> !(has_key((#[trigger] runs[k]).run.results@, t) && is_failure(
                    entry_of(runs[k].run.results@, t).status,
                )),
        },
    decreases n,
{
    if n > 0 {
        latest_failure_is_the_last(runs, (n - 1) as nat, t);
    }
}

/// Whether a name is among the first `n` names.
pub open spec fn named_before(names: Seq<Seq<char>>, n: int, t: Seq<char>) -> bool {
    exists|i: int| 0 <= i < n && #[trigger] names[i] == t
}

/// Whether the tests that fail after the takeover are those that failed in the old repository.
pub open spec fn is_taken_over(failing: Seq<Seq<char>>, old: Seq<Seq<char>>) -> bool {
    forall|t: Seq<char>| #[trigger] failing.contains(t) <==> old.contains(t)
}

/// Whether a run is recorded as one of an old repository, of which only the results are known.
pub open spec fn is_taken_run(s: StoredRun, run: TestRun) -> bool {
    &&& s.run == run
    &&& s.metadata == no_metadata()
    &&& s.started_at == Some(run.timestamp)
    &&& !s.in_progress
    &&& test_names(s.order@) == result_names(run.results@)
}

/// The text of a number of runs.
pub open spec fn runs_text(n: nat) -> Seq<char> {
    decimal(n) + " test run"@ + (if n == 1 {
        Seq::empty()
    } else {
        "s"@
    })
}

impl UpgradeCommand {
    /// A command for a project.
    pub fn new(base_path: Option<String>) -> (r: Self)
        ensures
            r == (UpgradeCommand { base_path }),
    {
        UpgradeCommand { base_path }
    }

    /// Where something of the project is.
    fn path_of(&self, name: &str) -> (r: String)
        ensures
            r@ == path_in(upgrade_base(*self), name@),
    {
        let base: &str = match &self.base_path {
            Some(p) => p.as_str(),
            None => ".",
        };
        join_path(base, name)
    }

    /// Fails where there is nothing in an old format.
    pub fn begin(&self, has_old_repo: bool, has_testr_conf: bool) -> (r: Result<()>)
        ensures
            has_old_repo || has_testr_conf ==> r is Ok,
            !has_old_repo && !has_testr_conf ==> (r matches Err(e) && e@
                == Failure::RepositoryNotFound(
                path_in(upgrade_base(*self), ".testrepository"@),
            )),
    {
        if has_old_repo || has_testr_conf {
            Ok(())
        } else {
            Err(Error::RepositoryNotFound(self.path_of(".testrepository")))
        }
    }

    /// Whether the repository can be taken over: the old one was opened, and there is no new one.
    pub fn check_repository(&self, opened: bool, new_exists: bool) -> (r: Result<()>)
        ensures
            match r {
                Ok(_) => opened && !new_exists,
                Err(e) => if !opened {
                    e@ == Failure::RepositoryNotFound(
                        path_in(upgrade_base(*self), ".testrepository"@),
                    )
                } else {
                    new_exists && e@ == Failure::RepositoryExists(
                        path_in(upgrade_base(*self), ".inquest"@),
                    )
                },
            },
    {
        if !opened {
            Err(Error::RepositoryNotFound(self.path_of(".testrepository")))
        } else if new_exists {
            Err(Error::RepositoryExists(self.path_of(".inquest")))
        } else {
            Ok(())
        }
    }

    /// The repository that takes the place of an old one: with its runs, the tests that fail, and
    /// the usual durations of tests.
    pub fn upgrade_repository(&self, old_store: Store, ui: &mut Transcript) -> (r: Store)
        ensures
            r.runs@.len() == old_store.runs@.len(),
            forall|i: int|
                0 <= i < r.runs@.len() ==> is_taken_run(
                    #[trigger] r.runs@[i],
                    old_store.runs@[i].run,
                ),
            is_taken_over(test_names(r.failing@), test_names(old_store.failing@)),
            times_map(r.times@) == times_after(
                old_store.runs@,
                old_store.runs@.len(),
            ).union_prefer_right(times_map(old_store.times@)),
            final(ui)@ == old(ui)@ + outputs(
                seq![
                    "Upgrading "@ + runs_text(old_store.runs@.len()) + " from "@ + path_in(
                        upgrade_base(*self),
                        ".testrepository"@,
                    ) + " to "@ + path_in(upgrade_base(*self), ".inquest"@),
                    "Upgrade complete. You can remove "@ + path_in(
                        upgrade_base(*self),
                        ".testrepository"@,
                    ) + " when satisfied."@,
                ],
            ),
    {
        let n: usize = old_store.runs.len();
        let from: String = self.path_of(".testrepository");
        let to: String = self.path_of(".inquest");
        let plural: &str = if n == 1 {
            ""
        } else {
            "s"
        };
        proof {
            reveal_strlit("");
        }
        let many: String = cat3(count_text(n).as_str(), " test run", plural);
        assert(many@ =~= runs_text(n as nat));
        let first: String = cat5("Upgrading ", many.as_str(), " from ", from.as_str(), " to ");
        let first: String = cat2(first.as_str(), to.as_str());
        ui.output(first.as_str());
        let failing: TestRun = failing_state(&old_store);
        let ghost all = old_store.runs@;
        let ghost known = test_names(old_store.failing@);
        let Store { runs, failing: _, times } = old_store;
        let mut rest: Vec<StoredRun> = reversed(runs);
        let ghost back = all.reverse();
        let mut store: Store = Store::new();
        assert(back.take(back.len() as int) =~= back);
        assert(times_map(store.times@) =~= times_after(all, 0));
        while rest.len() > 0
            invariant
                back == all.reverse(),
                rest@.len() <= back.len(),
                rest@ == back.take(rest@.len() as int),
                store.runs@.len() == all.len() - rest@.len(),
                forall|i: int|
                    0 <= i < store.runs@.len() ==> is_taken_run(
                        #[trigger] store.runs@[i],
                        all[i].run,
                    ),
                times_map(store.times@) == times_after(all, (all.len() - rest@.len()) as nat),
            decreases rest@.len(),
        {
            let ghost left = rest@;
            let ghost done = store.runs@;
            assert(left.drop_last() =~= back.take(left.len() - 1));
            if let Some(stored) = rest.pop() {
                assert(stored == all[all.len() - left.len()]);
                let _ = store.insert_test_run(stored.run);
                assert forall|i: int| 0 <= i < store.runs@.len() implies is_taken_run(
                    #[trigger] store.runs@[i],
                    all[i].run,
                ) by {
                    if i < done.len() {
                        assert(store.runs@.drop_last()[i] == done[i]);
                    }
                }
            }
        }
        store.replace_failing_tests(&failing);
        proof {
            assert forall|t: Seq<char>| #[trigger]
                test_names(store.failing@).contains(t) <==> known.contains(t) by {
                failing_names_are(failing.results@, t);
                if has_key(failing.results@, t) {
                    assert(is_state_of(entry_of(failing.results@, t), all, t));
                    latest_failure_is_one(all, all.len(), t);
                }
            }
        }
        store.take_times(&times);
        let last: String = cat3(
            "Upgrade complete. You can remove ",
            from.as_str(),
            " when satisfied.",
        );
        ui.output(last.as_str());
        assert(ui@ =~= old(ui)@ + outputs(seq![first@, last@]));
        store
    }
}

/// Whether two results say the same.
pub open spec fn is_same_result(a: TestResult, b: TestResult) -> bool {
    &&& a.test_id == b.test_id
    &&& a.status == b.status
    &&& a.duration == b.duration
    &&& a.message == b.message
    &&& a.details == b.details
    &&& a.tags@ == b.tags@
}

/// Whether a result is that of the latest run in which a test failed, or a failure of its own where
/// there is no such run.
pub open spec fn is_state_of(r: TestResult, runs: Seq<StoredRun>, t: Seq<char>) -> bool {
    match latest_failure(runs, runs.len(), t) {
        Some(i) => is_same_result(r, entry_of(runs[i as int].run.results@, t)),
        None => {
            &&& r.test_id@ == t
            &&& r.status == TestStatus::Failure
            &&& r.message matches Some(m) && m@ == "migrated from .testrepository"@
            &&& r.duration is None && r.details is None && r.tags@.len() == 0
        },
    }
}

/// The result of the latest run in which a test failed is a failure.
proof fn latest_failure_is_one(runs: Seq<StoredRun>, n: nat, t: Seq<char>)
    requires
        n <= runs.len(),
    ensures
        latest_failure(runs, n, t) matches Some(i) ==> i < n && is_failure(
            entry_of(runs[i as int].run.results@, t).status,
        ),
    decreases n,
{
    if n > 0 {
        latest_failure_is_one(runs, (n - 1) as nat, t);
    }
}

/// The result of the latest run in which a test failed; a failure of its own where there is none.
fn state_of(store: &Store, t: &TestId) -> (r: TestResult)
    ensures
        r.test_id@ == t@,
        is_state_of(r, store.runs@, t@),
{
    let mut i: usize = store.runs.len();
    while i > 0
        invariant
            i <= store.runs@.len(),
            latest_failure(store.runs@, i as nat, t@) == latest_failure(
                store.runs@,
                store.runs@.len(),
                t@,
            ),
        decreases i,
    {
        i -= 1;
        if let Some(result) = store.runs[i].run.results.find(t.as_str()) {
            if result.status.is_failure() {
                return result.copy();
            }
        }
    }
    TestResult::failure(t.as_str(), "migrated from .testrepository")
}

/// The results that tell of the failing tests of an old repository.
pub fn failing_state(store: &Store) -> (r: TestRun)
    ensures
        keys_ascend(r.results@),
        forall|t: Seq<char>| #[trigger]
            has_key(r.results@, t) <==> test_names(store.failing@).contains(t),
        forall|t: Seq<char>| #[trigger]
            has_key(r.results@, t) ==> is_state_of(entry_of(r.results@, t), store.runs@, t),
{
    let id: RunId = match store.latest_run_id() {
        Ok(id) => id,
        Err(_) => RunId::new("0"),
    };
    let mut run: TestRun = TestRun::new(id);
    let ghost names = test_names(store.failing@);
    let _ = run.results.entries();
    for i in 0..store.failing.len()
        invariant
            names == test_names(store.failing@),
            keys_ascend(run.results@),
            forall|t: Seq<char>| #[trigger]
                has_key(run.results@, t) <==> named_before(names, i as int, t),
            forall|t: Seq<char>| #[trigger]
                has_key(run.results@, t) ==> is_state_of(
                    entry_of(run.results@, t),
                    store.runs@,
                    t,
                ),
    {
        let ghost before = run.results@;
        let result: TestResult = state_of(store, &store.failing[i]);
        let ghost g = result;
        run.add_result(result);
        proof {
            with_entry_laws(before, g);
            assert(g.key_text() == names[i as int]);
            assert forall|t: Seq<char>| #[trigger]
                has_key(run.results@, t) <==> named_before(names, i + 1, t) by {
                if t == names[i as int] {
                } else if named_before(names, i + 1, t) {
                    let k = choose|k: int| 0 <= k < i + 1 && #[trigger] names[k] == t;
                    assert(names[k] == t && k < i);
                    assert(has_key(before, t));
                } else {
                    assert(!has_key(before, t)) by {
                        if named_before(names, i as int, t) {
                            let k = choose|k: int| 0 <= k < i && #[trigger] names[k] == t;
                            assert(names[k] == t);
                        }
                    }
                }
            }
            assert forall|t: Seq<char>| #[trigger] has_key(run.results@, t) implies is_state_of(
                entry_of(run.results@, t),
                store.runs@,
                t,
            ) by {
                if t != names[i as int] {
                    assert(has_key(before, t));
                    assert(is_state_of(entry_of(before, t), store.runs@, t));
                }
            }
        }
    }
    proof {
        assert forall|t: Seq<char>| #[trigger] has_key(run.results@, t) <==> names.contains(t) by {
            if names.contains(t) {
                let k = choose|k: int| 0 <= k < names.len() && names[k] == t;
                assert(names[k] == t);
            }
        }
    }
    run
}

/// A configuration that takes the place of an old one.
#[derive(Debug)]
pub struct UpgradedConfig {
    /// Where to write it.
    pub path: String,
    /// Its text.
    pub text: String,
}

/// The configuration in the new format that there is already.
pub open spec fn existing_config(has_toml: bool, has_dot_toml: bool) -> Option<Seq<char>> {
    if has_toml {
        Some("inquest.toml"@)
    } else if has_dot_toml {
        Some(".inquest.toml"@)
    } else {
        None
    }
}

impl UpgradeCommand {
    /// The configuration that takes the place of the old one. Where there is one in the new format
    /// already, that is told and nothing is to be written.
    pub fn upgrade_config(
        &self,
        has_toml: bool,
        has_dot_toml: bool,
        contents: &core::result::Result<String, String>,
        ui: &mut Transcript,
    ) -> (r: Result<Option<UpgradedConfig>>)
        ensures
            match existing_config(has_toml, has_dot_toml) {
                Some(name) => {
                    &&& r matches Ok(o) && o is None
                    &&& final(ui)@ == old(ui)@.push(
                        Line::Warning(
                            path_in(upgrade_base(*self), name) + " already exists; skipping rewrite of "@
                                + path_in(upgrade_base(*self), ".testr.conf"@),
                        ),
                    )
                },
                None => {
                    &&& final(ui)@ == old(ui)@
                    &&& exists|c: Result<TestrConfig>| #[trigger]
                        is_old_config(upgrade_base(*self), contents_text(*contents), c) && match c {
                            Err(e) => r matches Err(g) && g == e,
                            Ok(c) => match r {
                                Ok(o) => {
                                    &&& o is Some
                                    &&& o->0.path@ == path_in(
                                        upgrade_base(*self),
                                        "inquest.toml"@,
                                    )
                                    &&& is_written(c@, Ok(o->0.text))
                                },
                                Err(e) => is_written(c@, Err(e)),
                            },
                        }
                },
            },
    {
        let conf: String = self.path_of(".testr.conf");
        if has_toml || has_dot_toml {
            let name: &str = if has_toml {
                "inquest.toml"
            } else {
                ".inquest.toml"
            };
            let line: String = cat3(
                self.path_of(name).as_str(),
                " already exists; skipping rewrite of ",
                conf.as_str(),
            );
            ui.warning(line.as_str());
            return Ok(None);
        }
        let loaded: Result<TestrConfig> = TestrConfig::load_from_file(conf.as_str(), contents);
        let ghost l = loaded;
        assert(is_old_config(upgrade_base(*self), contents_text(*contents), l));
        match loaded {
            Err(e) => Err(e),
            Ok(c) => match c.to_toml() {
                Err(e) => Err(e),
                Ok(text) => Ok(
                    Some(UpgradedConfig { path: self.path_of("inquest.toml"), text }),
                ),
            },
        }
    }

    /// Tells what came of writing a configuration.
    pub fn finish_config(
        &self,
        file: &UpgradedConfig,
        written: core::result::Result<(), String>,
        ui: &mut Transcript,
    ) -> (r: Result<()>)
        ensures
            ({
                let conf = path_in(upgrade_base(*self), ".testr.conf"@);
                match written {
                    Ok(_) => r is Ok && final(ui)@ == old(ui)@.push(
                        Line::Output(
                            "Rewrote "@ + conf + " as "@ + file.path@ + ". You can remove "@ + conf
                                + " when satisfied."@,
                        ),
                    ),
                    Err(m) => r matches Err(e) && e@ == Failure::Config(
                        "Failed to write "@ + file.path@ + ": "@ + m@,
                    ) && final(ui)@ == old(ui)@,
                }
            }),
    {
        match written {
            Ok(_) => {
                let conf: String = self.path_of(".testr.conf");
                let line: String = cat7(
                    "Rewrote ",
                    conf.as_str(),
                    " as ",
                    file.path.as_str(),
                    ". You can remove ",
                    conf.as_str(),
                    " when satisfied.",
                );
                ui.output(line.as_str());
                Ok(())
            },
            Err(m) => Err(
                Error::Config(cat4("Failed to write ", file.path.as_str(), ": ", m.as_str())),
            ),
        }
    }

    /// Ends, and says so where nothing was done.
    pub fn finish(&self, did_anything: bool, ui: &mut Transcript) -> (r: Result<i32>)
        ensures
            r matches Ok(code) && code == 0,
            final(ui)@ == (if did_anything {
                old(ui)@
            } else {
                old(ui)@.push(Line::Output("Nothing to upgrade."@))
            }),
    {
        if !did_anything {
            ui.output("Nothing to upgrade.");
        }
        Ok(0)
    }
}

/// Whether `c` is the configuration in the old format.
pub open spec fn is_old_config(
    base: Seq<char>,
    contents: core::result::Result<Seq<char>, Seq<char>>,
    c: Result<TestrConfig>,
) -> bool {
    exists|f: Result<ConfigFile>| #[trigger]
        is_load_outcome(path_in(base, ".testr.conf"@), contents, f) && is_resolved(f, c)
}

impl Command for UpgradeCommand {
    fn name(&self) -> (r: &str)
        ensures
            r@ == "upgrade"@,
    {
        "upgrade"
    }

    fn help(&self) -> (r: &str)
        ensures
            r@ == "Upgrade legacy .testrepository/ and/or .testr.conf to the new format"@,
    {
        "Upgrade legacy .testrepository/ and/or .testr.conf to the new format"
    }
}

} // verus!
