//! The apply pipeline's decisions.
//!
//! One apply run walks fixed phases: execute the profile's modules in
//! order, render every registered template, back up every target that
//! already exists, write every rendered target, then run the modules'
//! post-render hooks. Any phase's failure aborts the run — except a
//! single target's write failure, which is reported and does not stop the
//! remaining writes. The backup and write steps are decided here over a
//! model of the affected files; the surrounding process performs the raw
//! reads and writes and reports each outcome back.
use vstd::prelude::*;

use crate::paths::{root_stripped, str_eq, strip_root};

verus! {

/// The files an apply run touches: each path with its current content.
pub struct FsModel {
    pub files: Vec<(String, String)>,
}

impl FsModel {
    /// Well-formed: one entry per path.
    pub open spec fn wf(&self) -> bool {
        forall|i: int, j: int|
            0 <= i < j < self.files@.len() ==> self.files@[i].0@ != self.files@[j].0@
    }

    /// Whether a file exists at `p`.
    pub open spec fn has_path(&self, p: Seq<char>) -> bool {
        exists|i: int| 0 <= i < self.files@.len() && self.files@[i].0@ == p
    }

    /// The content of the file at `p`, which must exist.
    pub open spec fn content_of(&self, p: Seq<char>) -> Seq<char> {
        let i = choose|i: int| 0 <= i < self.files@.len() && self.files@[i].0@ == p;
        self.files@[i].1@
    }

    /// A model of no files at all.
    pub fn new() -> (r: FsModel)
        ensures
            r.wf(),
            forall|p: Seq<char>| !r.has_path(p),
    {
        FsModel { files: Vec::new() }
    }

    /// The content of the file at `p`, when one exists.
    pub fn lookup(&self, p: &str) -> (r: Option<&String>)
        requires
            self.wf(),
        ensures
            match r {
                Some(c) => self.has_path(p@) && c@ == self.content_of(p@),
                None => !self.has_path(p@),
            },
    {
        let n = self.files.len();
        let mut i: usize = 0;
        while i < n
            invariant
                i <= n,
                n == self.files@.len(),
                self.wf(),
                forall|j: int| 0 <= j < i ==> self.files@[j].0@ != p@,
            decreases n - i,
        {
            if str_eq(self.files[i].0.as_str(), p) {
                proof {
                    assert(self.has_path(p@));
                    let w = choose|w: int| 0 <= w < self.files@.len() && self.files@[w].0@ == p@;
                    assert(w == i);
                }
                return Some(&self.files[i].1);
            }
            i += 1;
        }
        None
    }

    /// Puts `content` at the path `p`: an existing file is overwritten, a
    /// missing one comes into being. No other file changes.
    pub fn write(&mut self, p: String, content: String)
        requires
            old(self).wf(),
        ensures
            final(self).wf(),
            final(self).has_path(p@),
            final(self).content_of(p@) == content@,
            forall|q: Seq<char>|
                q != p@ ==> #[trigger] final(self).has_path(q) == old(self).has_path(q),
            forall|q: Seq<char>|
                q != p@ && old(self).has_path(q) ==> #[trigger] final(self).content_of(q) == old(
                    self,
                ).content_of(q),
    {
        let ghost pview = p@;
        let ghost cview = content@;
        let n = self.files.len();
        let mut i: usize = 0;
        while i < n
            invariant
                i <= n,
                n == self.files@.len(),
                *self == *old(self),
                old(self).wf(),
                pview == p@,
                cview == content@,
                forall|j: int| 0 <= j < i ==> self.files@[j].0@ != p@,
            decreases n - i,
        {
            if str_eq(self.files[i].0.as_str(), p.as_str()) {
                self.files.set(i, (p, content));
                proof {
                    let before = old(self).files@;
                    let after = self.files@;
                    assert(forall|j: int| 0 <= j < after.len() ==> after[j].0@ == before[j].0@);
                    assert(after[i as int].0@ == pview);
                    assert forall|q: Seq<char>| q != pview implies #[trigger] self.has_path(q)
                        == old(self).has_path(q) by {
                        if old(self).has_path(q) {
                            let w = choose|w: int| 0 <= w < before.len() && before[w].0@ == q;
                            assert(after[w].0@ == q);
                        }
                        if self.has_path(q) {
                            let w = choose|w: int| 0 <= w < after.len() && after[w].0@ == q;
                            assert(before[w].0@ == q);
                        }
                    }
                    let w = choose|w: int| 0 <= w < after.len() && after[w].0@ == pview;
                    assert(w == i) by {
                        if w != i {
                            assert(before[w].0@ == pview);
                            assert(before[i as int].0@ == pview);
                        }
                    }
                    assert(self.content_of(pview) == cview);
                    assert forall|q: Seq<char>|
                        q != pview && old(self).has_path(q) implies #[trigger] self.content_of(q)
                        == old(self).content_of(q) by {
                        let w1 = choose|w: int| 0 <= w < before.len() && before[w].0@ == q;
                        assert(after[w1].0@ == q);
                        let w2 = choose|w: int| 0 <= w < after.len() && after[w].0@ == q;
                        assert(before[w2].0@ == q);
                        assert(w1 == w2);
                        assert(w2 != i);
                        assert(after[w2].1@ == before[w2].1@);
                    }
                }
                return ;
            }
            i += 1;
        }
        self.files.push((p, content));
        proof {
            let before = old(self).files@;
            let after = self.files@;
            let last = before.len() as int;
            assert(after[last].0@ == pview);
            assert forall|a: int, b: int| 0 <= a < b < after.len() implies after[a].0@
                != after[b].0@ by {
                if b < last {
                    assert(after[a] == before[a]);
                    assert(after[b] == before[b]);
                } else {
                    assert(after[a] == before[a]);
                    assert(before[a].0@ != pview);
                }
            }
            let w = choose|w: int| 0 <= w < after.len() && after[w].0@ == pview;
            assert(w == last) by {
                if w < last {
                    assert(before[w].0@ == pview);
                }
            }
            assert(self.content_of(pview) == cview);
            assert forall|q: Seq<char>| q != pview implies #[trigger] self.has_path(q) == old(
                self,
            ).has_path(q) by {
                if old(self).has_path(q) {
                    let v = choose|v: int| 0 <= v < before.len() && before[v].0@ == q;
                    assert(after[v].0@ == q);
                }
                if self.has_path(q) {
                    let v = choose|v: int| 0 <= v < after.len() && after[v].0@ == q;
                    assert(v != last);
                    assert(before[v].0@ == q);
                }
            }
            assert forall|q: Seq<char>|
                q != pview && old(self).has_path(q) implies #[trigger] self.content_of(q) == old(
                self,
            ).content_of(q) by {
                let w1 = choose|v: int| 0 <= v < before.len() && before[v].0@ == q;
                assert(after[w1].0@ == q);
                let w2 = choose|v: int| 0 <= v < after.len() && after[v].0@ == q;
                assert(w2 != last);
                assert(before[w2].0@ == q);
                assert(w1 == w2);
            }
        }
    }
}

/// Pairs of strings, viewed as pairs of character sequences.
pub open spec fn entry_views(s: Seq<(String, String)>) -> Seq<(Seq<char>, Seq<char>)> {
    s.map_values(|p: (String, String)| (p.0@, p.1@))
}

/// What the backup archive is to hold before any target is overwritten:
/// for each target that already exists, in target order, its path with the
/// leading root separator cut off, paired with its current content.
/// Targets that do not exist yet are skipped.
pub open spec fn backup_plan(fs: FsModel, targets: Seq<Seq<char>>) -> Seq<(Seq<char>, Seq<char>)>
    decreases targets.len(),
{
    if targets.len() == 0 {
        Seq::empty()
    } else {
        let rest = backup_plan(fs, targets.drop_last());
        let p = targets.last();
        if fs.has_path(p) {
            rest.push((root_stripped(p), fs.content_of(p)))
        } else {
            rest
        }
    }
}

/// Computes the backup archive's entries for the given targets over the
/// current files: existing targets only, each with its pre-write content.
pub fn backup_entries(targets: &Vec<String>, fs: &FsModel) -> (r: Vec<(String, String)>)
    requires
        fs.wf(),
    ensures
        entry_views(r@) == backup_plan(*fs, targets.deep_view()),
{
    let ghost tv = targets.deep_view();
    proof {
        assert(forall|i: int| 0 <= i < tv.len() ==> tv[i] == targets@[i]@);
        assert(tv.take(0) =~= Seq::<Seq<char>>::empty());
        assert(entry_views(Seq::empty()) =~= Seq::<(Seq<char>, Seq<char>)>::empty());
    }
    let n = targets.len();
    let mut out: Vec<(String, String)> = Vec::new();
    let mut i: usize = 0;
    while i < n
        invariant
            i <= n,
            n == targets@.len(),
            tv == targets.deep_view(),
            fs.wf(),
            entry_views(out@) =~= backup_plan(*fs, tv.take(i as int)),
        decreases n - i,
    {
        proof {
            assert(tv.take(i + 1).drop_last() =~= tv.take(i as int));
            assert(tv.take(i + 1).last() == tv[i as int]);
        }
        match fs.lookup(targets[i].as_str()) {
            Some(content) => {
                let stripped = String::from_str(strip_root(targets[i].as_str()));
                let owned_content = String::from_str(content.as_str());
                out.push((stripped, owned_content));
                proof {
                    assert(entry_views(out@) =~= backup_plan(*fs, tv.take(i + 1)));
                }
            },
            None => {
                proof {
                    assert(entry_views(out@) =~= backup_plan(*fs, tv.take(i + 1)));
                }
            },
        }
        i += 1;
    }
    proof {
        assert(tv.take(n as int) =~= tv);
    }
    out
}

/// Every target that exists before the run is in the backup plan, paired
/// with its pre-run content: nothing is overwritten unarchived.
pub proof fn lemma_backup_holds_old_content(fs: FsModel, targets: Seq<Seq<char>>, i: int)
    requires
        0 <= i < targets.len(),
        fs.has_path(targets[i]),
    ensures
        backup_plan(fs, targets).contains((root_stripped(targets[i]), fs.content_of(targets[i]))),
    decreases targets.len(),
{
    let pair = (root_stripped(targets[i]), fs.content_of(targets[i]));
    if i == targets.len() - 1 {
        let rest = backup_plan(fs, targets.drop_last());
        assert(backup_plan(fs, targets) == rest.push(pair));
        assert(rest.push(pair)[rest.len() as int] == pair);
    } else {
        assert(targets.drop_last()[i] == targets[i]);
        lemma_backup_holds_old_content(fs, targets.drop_last(), i);
        let rest = backup_plan(fs, targets.drop_last());
        let w = choose|w: int| 0 <= w < rest.len() && rest[w] == pair;
        if fs.has_path(targets.last()) {
            assert(backup_plan(fs, targets)[w] == pair);
        }
    }
}

/// The targets whose writes failed, in target order.
pub open spec fn failed_targets(targets: Seq<(Seq<char>, Seq<char>)>, ok: Seq<bool>) -> Seq<
    Seq<char>,
>
    decreases targets.len(),
{
    if targets.len() == 0 || targets.len() != ok.len() {
        Seq::empty()
    } else {
        let rest = failed_targets(targets.drop_last(), ok.drop_last());
        if ok.last() {
            rest
        } else {
            rest.push(targets.last().0)
        }
    }
}

/// Nothing of the path `q` differs between the two models.
pub open spec fn same_at(a: FsModel, b: FsModel, q: Seq<char>) -> bool {
    &&& a.has_path(q) == b.has_path(q)
    &&& (b.has_path(q) ==> a.content_of(q) == b.content_of(q))
}

/// Applies the write step: each rendered target whose write succeeded
/// (`ok`) holds its new content afterwards; a failed write leaves its
/// target exactly as it was and stops nothing — every other target is
/// still written. The failed targets are returned, in order, to be
/// reported as warnings; no failure aborts the step.
pub fn write_all(fs: &mut FsModel, targets: &Vec<(String, String)>, ok: &Vec<bool>) -> (failed:
    Vec<String>)
    requires
        old(fs).wf(),
        ok@.len() == targets@.len(),
        forall|i: int, j: int| 0 <= i < j < targets@.len() ==> targets@[i].0@ != targets@[j].0@,
    ensures
        final(fs).wf(),
        forall|i: int|
            0 <= i < targets@.len() && ok@[i] ==> final(fs).has_path(#[trigger] targets@[i].0@)
                && final(fs).content_of(targets@[i].0@) == targets@[i].1@,
        forall|i: int|
            0 <= i < targets@.len() && !ok@[i] ==> same_at(
                *final(fs),
                *old(fs),
                #[trigger] targets@[i].0@,
            ),
        forall|q: Seq<char>|
            (forall|i: int| 0 <= i < targets@.len() ==> #[trigger] targets@[i].0@ != q)
                ==> #[trigger] same_at(*final(fs), *old(fs), q),
        failed.deep_view() == failed_targets(entry_views(targets@), ok@),
{
    let ghost tv = entry_views(targets@);
    proof {
        assert(forall|i: int|
            0 <= i < tv.len() ==> tv[i] == (targets@[i].0@, targets@[i].1@));
        assert(tv.take(0) =~= Seq::<(Seq<char>, Seq<char>)>::empty());
    }
    let n = targets.len();
    let mut failed: Vec<String> = Vec::new();
    let mut i: usize = 0;
    while i < n
        invariant
            i <= n,
            n == targets@.len(),
            n == ok@.len(),
            tv == entry_views(targets@),
            forall|a: int, b: int| 0 <= a < b < n ==> targets@[a].0@ != targets@[b].0@,
            fs.wf(),
            forall|k: int|
                0 <= k < i && ok@[k] ==> fs.has_path(#[trigger] targets@[k].0@)
                    && fs.content_of(targets@[k].0@) == targets@[k].1@,
            forall|q: Seq<char>|
                (forall|k: int| 0 <= k < i ==> !(ok@[k] && #[trigger] targets@[k].0@ == q))
                    ==> #[trigger] same_at(*fs, *old(fs), q),
            failed.deep_view() =~= failed_targets(tv.take(i as int), ok@.take(i as int)),
        decreases n - i,
    {
        proof {
            assert(tv.take(i + 1).drop_last() =~= tv.take(i as int));
            assert(ok@.take(i + 1).drop_last() =~= ok@.take(i as int));
            assert(tv.take(i + 1).last() == tv[i as int]);
            assert(ok@.take(i + 1).last() == ok@[i as int]);
        }
        if ok[i] {
            let ghost fs_before = *fs;
            let path = String::from_str(targets[i].0.as_str());
            let content = String::from_str(targets[i].1.as_str());
            fs.write(path, content);
            proof {
                let pview = targets@[i as int].0@;
                assert forall|q: Seq<char>|
                    (forall|k: int|
                        0 <= k < i + 1 ==> !(ok@[k] && #[trigger] targets@[k].0@
                            == q)) implies #[trigger] same_at(*fs, *old(fs), q) by {
                    assert(!(ok@[i as int] && targets@[i as int].0@ == q));
                    assert(pview != q);
                    assert(fs.has_path(q) == fs_before.has_path(q));
                    assert(same_at(fs_before, *old(fs), q));
                    assert(same_at(*fs, *old(fs), q));
                }
                assert forall|k: int|
                    0 <= k < i + 1 && ok@[k] implies fs.has_path(#[trigger] targets@[k].0@)
                    && fs.content_of(targets@[k].0@) == targets@[k].1@ by {
                    if k < i {
                        assert(targets@[k].0@ != pview);
                        assert(fs_before.has_path(targets@[k].0@));
                    }
                }
            }
        } else {
            failed.push(String::from_str(targets[i].0.as_str()));
        }
        i += 1;
    }
    proof {
        assert(tv.take(n as int) =~= tv);
        assert(ok@.take(n as int) =~= ok@);
        assert(failed.deep_view() =~= failed_targets(entry_views(targets@), ok@));
    }
    failed
}

/// How many items each phase of one apply run has to work through.
#[derive(Clone, Copy, PartialEq, Eq, Structural, Debug)]
pub struct StepCounts {
    pub modules: usize,
    pub renders: usize,
    pub backups: usize,
    pub writes: usize,
    pub hooks: usize,
}

/// Where an apply run stands: which phase, and which of its items comes
/// next. A failure is terminal; so is completion.
#[derive(Clone, Copy, PartialEq, Eq, Structural, Debug)]
pub enum ApplyPhase {
    Executing { next: usize },
    Rendering { next: usize },
    BackingUp { next: usize },
    Writing { next: usize },
    RunningHooks { next: usize },
    Done,
    Failed,
}

/// What the surrounding process reports back after performing one item of
/// the current phase.
#[derive(Clone, Copy, PartialEq, Eq, Structural, Debug)]
pub enum ApplyEvent {
    ModuleOk,
    ModuleFailed,
    RenderOk,
    RenderFailed,
    BackupOk,
    BackupFailed,
    WriteOk,
    WriteFailed,
    HookOk,
    HookFailed,
}

/// The first phase at or after running hooks that has work, else done.
pub open spec fn hooks_start(c: StepCounts) -> ApplyPhase {
    if c.hooks > 0 {
        ApplyPhase::RunningHooks { next: 0 }
    } else {
        ApplyPhase::Done
    }
}

/// The first phase at or after writing that has work, else done.
pub open spec fn writing_start(c: StepCounts) -> ApplyPhase {
    if c.writes > 0 {
        ApplyPhase::Writing { next: 0 }
    } else {
        hooks_start(c)
    }
}

/// The first phase at or after backing up that has work, else done.
pub open spec fn backup_start(c: StepCounts) -> ApplyPhase {
    if c.backups > 0 {
        ApplyPhase::BackingUp { next: 0 }
    } else {
        writing_start(c)
    }
}

/// The first phase at or after rendering that has work, else done.
pub open spec fn rendering_start(c: StepCounts) -> ApplyPhase {
    if c.renders > 0 {
        ApplyPhase::Rendering { next: 0 }
    } else {
        backup_start(c)
    }
}

/// Where an apply run begins: at the first phase that has work.
pub open spec fn initial_phase(c: StepCounts) -> ApplyPhase {
    if c.modules > 0 {
        ApplyPhase::Executing { next: 0 }
    } else {
        rendering_start(c)
    }
}

/// The phase after handling one event in the current phase: a phase with
/// items left stays, a finished phase hands over to the next phase that
/// has work, a failure ends the run — except a write failure, which is
/// treated like a completed write. An event that does not belong to the
/// phase ends the run as failed.
pub open spec fn next_phase_spec(ph: ApplyPhase, ev: ApplyEvent, c: StepCounts) -> ApplyPhase {
    match ph {
        ApplyPhase::Executing { next } => match ev {
            ApplyEvent::ModuleOk => if next + 1 < c.modules {
                ApplyPhase::Executing { next: (next + 1) as usize }
            } else {
                rendering_start(c)
            },
            _ => ApplyPhase::Failed,
        },
        ApplyPhase::Rendering { next } => match ev {
            ApplyEvent::RenderOk => if next + 1 < c.renders {
                ApplyPhase::Rendering { next: (next + 1) as usize }
            } else {
                backup_start(c)
            },
            _ => ApplyPhase::Failed,
        },
        ApplyPhase::BackingUp { next } => match ev {
            ApplyEvent::BackupOk => if next + 1 < c.backups {
                ApplyPhase::BackingUp { next: (next + 1) as usize }
            } else {
                writing_start(c)
            },
            _ => ApplyPhase::Failed,
        },
        ApplyPhase::Writing { next } => match ev {
            ApplyEvent::WriteOk | ApplyEvent::WriteFailed => if next + 1 < c.writes {
                ApplyPhase::Writing { next: (next + 1) as usize }
            } else {
                hooks_start(c)
            },
            _ => ApplyPhase::Failed,
        },
        ApplyPhase::RunningHooks { next } => match ev {
            ApplyEvent::HookOk => if next + 1 < c.hooks {
                ApplyPhase::RunningHooks { next: (next + 1) as usize }
            } else {
                ApplyPhase::Done
            },
            _ => ApplyPhase::Failed,
        },
        ApplyPhase::Done => ApplyPhase::Done,
        ApplyPhase::Failed => ApplyPhase::Failed,
    }
}

/// Where an apply run of the given step counts begins.
pub fn start_phase(c: StepCounts) -> (r: ApplyPhase)
    ensures
        r == initial_phase(c),
{
    if c.modules > 0 {
        ApplyPhase::Executing { next: 0 }
    } else if c.renders > 0 {
        ApplyPhase::Rendering { next: 0 }
    } else if c.backups > 0 {
        ApplyPhase::BackingUp { next: 0 }
    } else if c.writes > 0 {
        ApplyPhase::Writing { next: 0 }
    } else if c.hooks > 0 {
        ApplyPhase::RunningHooks { next: 0 }
    } else {
        ApplyPhase::Done
    }
}

/// Takes one step of the apply run; see [`next_phase_spec`].
pub fn next_phase(ph: ApplyPhase, ev: ApplyEvent, c: StepCounts) -> (r: ApplyPhase)
    ensures
        r == next_phase_spec(ph, ev, c),
{
    match ph {
        ApplyPhase::Executing { next } => match ev {
            ApplyEvent::ModuleOk => {
                if next < c.modules && next + 1 < c.modules {
                    ApplyPhase::Executing { next: next + 1 }
                } else if c.renders > 0 {
                    ApplyPhase::Rendering { next: 0 }
                } else if c.backups > 0 {
                    ApplyPhase::BackingUp { next: 0 }
                } else if c.writes > 0 {
                    ApplyPhase::Writing { next: 0 }
                } else if c.hooks > 0 {
                    ApplyPhase::RunningHooks { next: 0 }
                } else {
                    ApplyPhase::Done
                }
            },
            _ => ApplyPhase::Failed,
        },
        ApplyPhase::Rendering { next } => match ev {
            ApplyEvent::RenderOk => {
                if next < c.renders && next + 1 < c.renders {
                    ApplyPhase::Rendering { next: next + 1 }
                } else if c.backups > 0 {
                    ApplyPhase::BackingUp { next: 0 }
                } else if c.writes > 0 {
                    ApplyPhase::Writing { next: 0 }
                } else if c.hooks > 0 {
                    ApplyPhase::RunningHooks { next: 0 }
                } else {
                    ApplyPhase::Done
                }
            },
            _ => ApplyPhase::Failed,
        },
        ApplyPhase::BackingUp { next } => match ev {
            ApplyEvent::BackupOk => {
                if next < c.backups && next + 1 < c.backups {
                    ApplyPhase::BackingUp { next: next + 1 }
                } else if c.writes > 0 {
                    ApplyPhase::Writing { next: 0 }
                } else if c.hooks > 0 {
                    ApplyPhase::RunningHooks { next: 0 }
                } else {
                    ApplyPhase::Done
                }
            },
            _ => ApplyPhase::Failed,
        },
        ApplyPhase::Writing { next } => match ev {
            ApplyEvent::WriteOk | ApplyEvent::WriteFailed => {
                if next < c.writes && next + 1 < c.writes {
                    ApplyPhase::Writing { next: next + 1 }
                } else if c.hooks > 0 {
                    ApplyPhase::RunningHooks { next: 0 }
                } else {
                    ApplyPhase::Done
                }
            },
            _ => ApplyPhase::Failed,
        },
        ApplyPhase::RunningHooks { next } => match ev {
            ApplyEvent::HookOk => {
                if next < c.hooks && next + 1 < c.hooks {
                    ApplyPhase::RunningHooks { next: next + 1 }
                } else {
                    ApplyPhase::Done
                }
            },
            _ => ApplyPhase::Failed,
        },
        ApplyPhase::Done => ApplyPhase::Done,
        ApplyPhase::Failed => ApplyPhase::Failed,
    }
}

/// A single target's write failure is reported, never fatal: the run
/// steps on exactly as after a successful write, and does not fail.
pub proof fn lemma_write_failure_not_fatal(next: usize, c: StepCounts)
    ensures
        next_phase_spec(ApplyPhase::Writing { next }, ApplyEvent::WriteFailed, c)
            == next_phase_spec(ApplyPhase::Writing { next }, ApplyEvent::WriteOk, c),
        !(next_phase_spec(ApplyPhase::Writing { next }, ApplyEvent::WriteFailed, c)
            is Failed),
{
}

/// Any failure outside the write phase ends the run at once: no later
/// phase is entered.
pub proof fn lemma_failure_aborts(ph: ApplyPhase, ev: ApplyEvent, c: StepCounts)
    requires
        ev is ModuleFailed || ev is RenderFailed || ev is BackupFailed || ev is HookFailed,
        !(ph is Done),
        !(ph is Failed),
    ensures
        next_phase_spec(ph, ev, c) is Failed,
{
}

/// Backing up precedes writing: once the run writes, it never returns to
/// an earlier phase, so every backup of the run was taken before any
/// target was overwritten.
pub proof fn lemma_backup_precedes_write(ph: ApplyPhase, ev: ApplyEvent, c: StepCounts)
    requires
        ph is Writing || ph is RunningHooks || ph is Done || ph is Failed,
    ensures
        !(next_phase_spec(ph, ev, c) is BackingUp),
        !(next_phase_spec(ph, ev, c) is Rendering),
        !(next_phase_spec(ph, ev, c) is Executing),
{
}

} // verus!
