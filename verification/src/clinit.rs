//! Class initialization: the stage each class's initialization has reached,
//! and what the runtime is to do next when a class is to be initialized or
//! a part of its initialization has ended. The runtime runs the
//! initializers; this module decides.
use vstd::prelude::*;

use crate::hierarchy::{has_ancestor, table_wf, ClassTable};

verus! {

/// How far the initialization of a class has come.
#[derive(Clone, Copy, Debug, PartialEq, Eq, Structural)]
pub enum ClinitStage {
    /// Not begun.
    NotStarted,
    /// The superclass is being initialized, on this class's behalf.
    StartedSuperClass,
    /// The class's own initializer is running.
    StartedSelf,
    /// Done.
    Completed,
    /// The class's initializer threw.
    Failed,
}

/// What the runtime is to do next.
#[derive(Clone, Copy, Debug, PartialEq, Eq, Structural)]
pub enum ClinitAction {
    /// Initialize this superclass, then report with `superclass_done`.
    InitializeSuperClass(usize),
    /// Run the class's initializer, then report with `initializer_done`.
    RunInitializer,
    /// Go on: the class is initialized, or its initialization is under way.
    Proceed,
    /// Throw `NoClassDefFoundError` ("Could not initialize class ..."): the
    /// class's initializer failed before.
    ThrowNoClassDefFound,
    /// Throw on what the superclass's initialization threw.
    ThrowSuperClassError,
    /// Throw an `ExceptionInInitializerError` that wraps what the
    /// initializer threw (an `Exception`).
    ThrowWrapped,
    /// Throw on what the initializer threw (no `Exception`).
    Rethrow,
}

/// The stage and action once the superclass, if any, is initialized: the
/// class's initializer runs if it has one, and else it is done.
pub open spec fn after_super_class(has_initializer: bool) -> (ClinitStage, ClinitAction) {
    if has_initializer {
        (ClinitStage::StartedSelf, ClinitAction::RunInitializer)
    } else {
        (ClinitStage::Completed, ClinitAction::Proceed)
    }
}

/// Asking for a class to be initialized: one not begun starts with its
/// superclass (if it has one); one that failed throws; one done or under way
/// is left as it is.
pub open spec fn spec_begin(stage: ClinitStage, super_class: Option<usize>, has_initializer: bool) -> (
    ClinitStage,
    ClinitAction,
) {
    match stage {
        ClinitStage::NotStarted => match super_class {
            Some(s) => (ClinitStage::StartedSuperClass, ClinitAction::InitializeSuperClass(s)),
            None => after_super_class(has_initializer),
        },
        ClinitStage::Failed => (ClinitStage::Failed, ClinitAction::ThrowNoClassDefFound),
        _ => (stage, ClinitAction::Proceed),
    }
}

/// The superclass's initialization ended, well or with a throw; in the
/// latter case the class stays where it was.
pub open spec fn spec_superclass_done(stage: ClinitStage, ok: bool, has_initializer: bool) -> (
    ClinitStage,
    ClinitAction,
) {
    if ok {
        after_super_class(has_initializer)
    } else {
        (stage, ClinitAction::ThrowSuperClassError)
    }
}

/// The class's initializer ended: `None` where it returned, else whether
/// what it threw is an `Exception`.
pub open spec fn spec_initializer_done(threw_exception: Option<bool>) -> (ClinitStage, ClinitAction) {
    match threw_exception {
        None => (ClinitStage::Completed, ClinitAction::Proceed),
        Some(true) => (ClinitStage::Failed, ClinitAction::ThrowWrapped),
        Some(false) => (ClinitStage::Failed, ClinitAction::Rethrow),
    }
}

/// The initialization stages of the classes of a class table, by index.
pub struct ClinitStages {
    stages: Vec<ClinitStage>,
}

impl View for ClinitStages {
    type V = Seq<ClinitStage>;

    closed spec fn view(&self) -> Seq<ClinitStage> {
        self.stages@
    }
}

impl ClinitStages {
    /// `n` classes, none begun.
    pub fn new(n: usize) -> (res: Self)
        ensures
            res@ == Seq::new(n as nat, |i: int| ClinitStage::NotStarted),
    {
        let mut stages: Vec<ClinitStage> = Vec::new();
        let mut i: usize = 0;
        while i < n
            invariant
                i <= n,
                stages@ == Seq::new(i as nat, |j: int| ClinitStage::NotStarted),
            decreases n - i,
        {
            stages.push(ClinitStage::NotStarted);
            i = i + 1;
            assert(stages@ =~= Seq::new(i as nat, |j: int| ClinitStage::NotStarted));
        }
        ClinitStages { stages }
    }

    /// One more class, not begun.
    pub fn add_class(&mut self)
        ensures
            final(self)@ == old(self)@.push(ClinitStage::NotStarted),
    {
        self.stages.push(ClinitStage::NotStarted);
    }

    /// The number of classes.
    pub fn len(&self) -> (res: usize)
        ensures
            res == self@.len(),
    {
        self.stages.len()
    }

    /// The stage of class `c`.
    pub fn stage(&self, c: usize) -> (res: ClinitStage)
        requires
            c < self@.len(),
        ensures
            res == self@[c as int],
    {
        self.stages[c]
    }

    /// Class `c`, whose superclass is `super_class` and which has an
    /// initializer if `has_initializer`, is to be initialized (see
    /// `spec_begin`).
    pub fn begin(&mut self, c: usize, super_class: Option<usize>, has_initializer: bool) -> (res: ClinitAction)
        requires
            c < old(self)@.len(),
        ensures
            ({
                let (stage, action) = spec_begin(old(self)@[c as int], super_class, has_initializer);
                &&& res == action
                &&& final(self)@ == old(self)@.update(c as int, stage)
            }),
    {
        let (stage, action) = match self.stages[c] {
            ClinitStage::NotStarted => match super_class {
                Some(s) => (ClinitStage::StartedSuperClass, ClinitAction::InitializeSuperClass(s)),
                None => Self::after_super_class(has_initializer),
            },
            ClinitStage::Failed => (ClinitStage::Failed, ClinitAction::ThrowNoClassDefFound),
            other => (other, ClinitAction::Proceed),
        };
        self.stages.set(c, stage);
        action
    }

    /// The initialization of class `c`'s superclass ended, well if `ok`
    /// (see `spec_superclass_done`).
    pub fn superclass_done(&mut self, c: usize, ok: bool, has_initializer: bool) -> (res: ClinitAction)
        requires
            c < old(self)@.len(),
            old(self)@[c as int] == ClinitStage::StartedSuperClass,
        ensures
            ({
                let (stage, action) = spec_superclass_done(old(self)@[c as int], ok, has_initializer);
                &&& res == action
                &&& final(self)@ == old(self)@.update(c as int, stage)
            }),
    {
        let (stage, action) = if ok {
            Self::after_super_class(has_initializer)
        } else {
            (ClinitStage::StartedSuperClass, ClinitAction::ThrowSuperClassError)
        };
        self.stages.set(c, stage);
        action
    }

    /// The initializer of class `c` ended: `thrown` is the class of what it
    /// threw, if it threw; an `Exception` is what `exception_class` or a
    /// class below it in `classes` makes (see `spec_initializer_done`).
    pub fn initializer_done(
        &mut self,
        classes: &ClassTable,
        c: usize,
        thrown: Option<usize>,
        exception_class: usize,
    ) -> (res: ClinitAction)
        requires
            c < old(self)@.len(),
            old(self)@[c as int] == ClinitStage::StartedSelf,
            table_wf(classes@),
            thrown matches Some(t) ==> t < classes@.len(),
        ensures
            ({
                let threw_exception = match thrown {
                    Some(t) => Some(t == exception_class || has_ancestor(classes@, t as int, exception_class as int)),
                    None => None,
                };
                let (stage, action) = spec_initializer_done(threw_exception);
                &&& res == action
                &&& final(self)@ == old(self)@.update(c as int, stage)
            }),
    {
        let (stage, action) = match thrown {
            None => (ClinitStage::Completed, ClinitAction::Proceed),
            Some(t) => if classes.matches_class(t, exception_class) {
                (ClinitStage::Failed, ClinitAction::ThrowWrapped)
            } else {
                (ClinitStage::Failed, ClinitAction::Rethrow)
            },
        };
        self.stages.set(c, stage);
        action
    }

    /// The stage and action once the superclass is initialized.
    fn after_super_class(has_initializer: bool) -> (res: (ClinitStage, ClinitAction))
        ensures
            res == after_super_class(has_initializer),
    {
        if has_initializer {
            (ClinitStage::StartedSelf, ClinitAction::RunInitializer)
        } else {
            (ClinitStage::Completed, ClinitAction::Proceed)
        }
    }
}

/// A class's initializer runs at most once: asking again for a class whose
/// initialization has begun never runs anything, and leaves its stage as it
/// is.
pub proof fn lemma_initializer_runs_once(stage: ClinitStage, super_class: Option<usize>, has_initializer: bool)
    requires
        stage != ClinitStage::NotStarted,
    ensures
        spec_begin(stage, super_class, has_initializer).0 == stage,
        spec_begin(stage, super_class, has_initializer).1 != ClinitAction::RunInitializer,
        !(spec_begin(stage, super_class, has_initializer).1 is InitializeSuperClass),
{
}

/// A class whose initializer failed stays failed, and every later request
/// throws `NoClassDefFoundError`.
pub proof fn lemma_failed_stays_failed(super_class: Option<usize>, has_initializer: bool)
    ensures
        spec_begin(ClinitStage::Failed, super_class, has_initializer) == (
            ClinitStage::Failed,
            ClinitAction::ThrowNoClassDefFound,
        ),
{
}

/// A class's initialization ends where its initializer ends: done when it
/// returns, failed when it throws; and a class with no initializer is done
/// as soon as its superclass is.
pub proof fn lemma_initialization_ends(threw_exception: Option<bool>, ok: bool, stage: ClinitStage)
    ensures
        spec_initializer_done(threw_exception).0 == (if threw_exception is None {
            ClinitStage::Completed
        } else {
            ClinitStage::Failed
        }),
        ok ==> spec_superclass_done(stage, ok, false) == (ClinitStage::Completed, ClinitAction::Proceed),
{
}

} // verus!
