//! The course of a training run: epochs, evaluations and checkpoints.

use crate::arith;
use crate::arith::Arith;
use crate::text;
use crate::train::checkpoint::{epoch_tag, TrainingMeta};
use vstd::prelude::*;

verus! {

/// How far a run has come in its epoch.
#[derive(Debug, Clone, Copy, PartialEq, Eq, Structural)]
pub enum Stage {
    Train,
    Evaluate,
    /// Saving the best weights so far.
    SaveBest,
    /// Saving the checkpoint of the epoch.
    SaveEpoch,
    /// All epochs are done; saving what they led to.
    SaveFinal,
    Done,
}

/// What a run asks for.
#[derive(Debug, Clone, PartialEq, Eq)]
pub enum Task {
    /// Training through that epoch.
    Train(usize),
    /// The share of validation examples that are answered exactly.
    Evaluate,
    /// A checkpoint under that tag.
    Save(String),
    Done,
}

/// A training run. It asks for one thing after the other and is told when that is done.
#[derive(Debug, Clone, Copy)]
pub struct Session<F> {
    pub meta: TrainingMeta<F>,
    pub max_epochs: usize,
    pub eval_every: usize,
    pub save_every: usize,
    pub batch_size: usize,
    pub stage: Stage,
}

impl<F> Session<F> {
    /// The run is within an epoch.
    pub open spec fn in_epoch(self) -> bool {
        match self.stage {
            Stage::SaveFinal => false,
            Stage::Done => false,
            _ => true,
        }
    }

    /// Within an epoch, that epoch is one of the run, and both intervals are known.
    pub open spec fn wf(self) -> bool {
        self.in_epoch() ==> self.meta.epoch < self.max_epochs && self.eval_every > 0
            && self.save_every > 0
    }

    /// An evaluation is due after this epoch.
    pub open spec fn eval_due(self) -> bool {
        (self.meta.epoch + 1) % self.eval_every as int == 0
    }

    /// A checkpoint is due after this epoch.
    pub open spec fn save_due(self) -> bool {
        (self.meta.epoch + 1) % self.save_every as int == 0
    }

    /// The run in its next epoch, or past the last one.
    pub open spec fn next_epoch(self) -> Self {
        if self.meta.epoch + 1 < self.max_epochs {
            Session {
                meta: TrainingMeta { epoch: (self.meta.epoch + 1) as usize, ..self.meta },
                stage: Stage::Train,
                ..self
            }
        } else {
            Session { stage: Stage::SaveFinal, ..self }
        }
    }

    /// The run when training and evaluation of the epoch are done. A checkpoint records the
    /// batch size.
    pub open spec fn evaluated_epoch(self) -> Self {
        if self.save_due() {
            Session {
                meta: TrainingMeta { current_batch_size: self.batch_size, ..self.meta },
                stage: Stage::SaveEpoch,
                ..self
            }
        } else {
            self.next_epoch()
        }
    }

    /// The run after training.
    pub open spec fn after_training(self) -> Self {
        if self.eval_due() {
            Session { stage: Stage::Evaluate, ..self }
        } else {
            self.evaluated_epoch()
        }
    }

    /// The run after an evaluation, which may have given the best accuracy so far.
    pub open spec fn after_evaluation(self, accuracy: F, best: bool) -> Self {
        if best {
            Session {
                meta: TrainingMeta { best_val_acc: accuracy, ..self.meta },
                stage: Stage::SaveBest,
                ..self
            }
        } else {
            self.evaluated_epoch()
        }
    }

    /// The run after a checkpoint.
    pub open spec fn after_save(self) -> Self {
        match self.stage {
            Stage::SaveBest => self.evaluated_epoch(),
            Stage::SaveEpoch => self.next_epoch(),
            _ => Session { stage: Stage::Done, ..self },
        }
    }

    /// The tag of the checkpoint that is asked for.
    pub open spec fn tag(self) -> Seq<char> {
        match self.stage {
            Stage::SaveBest => "best"@,
            Stage::SaveEpoch => "epoch_"@ + text::decimal((self.meta.epoch + 1) as nat),
            _ => "final"@,
        }
    }

    /// A bound on how many more things the run will ask for.
    pub open spec fn left(self) -> int {
        let epochs = self.max_epochs - 1 - self.meta.epoch;
        match self.stage {
            Stage::Train => 4 * epochs + 5,
            Stage::Evaluate => 4 * epochs + 4,
            Stage::SaveBest => 4 * epochs + 3,
            Stage::SaveEpoch => 4 * epochs + 2,
            Stage::SaveFinal => 1,
            Stage::Done => 0,
        }
    }
}

impl<F: Copy> Session<F> {
    /// A run that goes on from a record, up to `max_epochs`.
    pub fn start(
        meta: TrainingMeta<F>,
        max_epochs: usize,
        eval_every: usize,
        save_every: usize,
        batch_size: usize,
    ) -> (r: Self)
        requires
            meta.epoch < max_epochs ==> eval_every > 0 && save_every > 0,
        ensures
            r.wf(),
            r == (Session {
                meta,
                max_epochs,
                eval_every,
                save_every,
                batch_size,
                stage: if meta.epoch < max_epochs {
                    Stage::Train
                } else {
                    Stage::SaveFinal
                },
            }),
    {
        let stage = if meta.epoch < max_epochs {
            Stage::Train
        } else {
            Stage::SaveFinal
        };
        Session { meta, max_epochs, eval_every, save_every, batch_size, stage }
    }

    /// What the run asks for.
    pub fn task(&self) -> (r: Task)
        requires
            self.wf(),
        ensures
            match r {
                Task::Train(epoch) => self.stage == Stage::Train && epoch == self.meta.epoch,
                Task::Evaluate => self.stage == Stage::Evaluate,
                Task::Save(tag) => {
                    &&& self.stage == Stage::SaveBest || self.stage == Stage::SaveEpoch
                        || self.stage == Stage::SaveFinal
                    &&& tag@ == self.tag()
                },
                Task::Done => self.stage == Stage::Done,
            },
    {
        match self.stage {
            Stage::Train => Task::Train(self.meta.epoch),
            Stage::Evaluate => Task::Evaluate,
            Stage::SaveBest => Task::Save("best".to_string()),
            Stage::SaveEpoch => Task::Save(epoch_tag(self.meta.epoch + 1)),
            Stage::SaveFinal => Task::Save("final".to_string()),
            Stage::Done => Task::Done,
        }
    }

    fn go_on(&mut self)
        requires
            old(self).wf(),
            old(self).in_epoch(),
        ensures
            *final(self) == old(self).next_epoch(),
    {
        let next: usize = self.meta.epoch + 1;
        if next < self.max_epochs {
            self.meta.epoch = next;
            self.stage = Stage::Train;
        } else {
            self.stage = Stage::SaveFinal;
        }
    }

    fn close_epoch(&mut self)
        requires
            old(self).wf(),
            old(self).in_epoch(),
        ensures
            *final(self) == old(self).evaluated_epoch(),
    {
        let done: usize = self.meta.epoch + 1;
        if done % self.save_every == 0 {
            self.meta.current_batch_size = self.batch_size;
            self.stage = Stage::SaveEpoch;
        } else {
            self.go_on();
        }
    }

    /// The epoch has been trained.
    pub fn trained(&mut self)
        requires
            old(self).wf(),
            old(self).stage == Stage::Train,
        ensures
            *final(self) == old(self).after_training(),
    {
        let done: usize = self.meta.epoch + 1;
        if done % self.eval_every == 0 {
            self.stage = Stage::Evaluate;
        } else {
            self.close_epoch();
        }
    }

    /// The model has been evaluated.
    pub fn evaluated<A: Arith<Num = F>>(&mut self, ar: &A, accuracy: F)
        requires
            old(self).wf(),
            old(self).stage == Stage::Evaluate,
        ensures
            exists|best: bool| #[trigger]
                arith::is_exceeds(ar, accuracy, old(self).meta.best_val_acc, best) && *final(self)
                    == old(self).after_evaluation(accuracy, best),
    {
        let best = ar.exceeds(accuracy, self.meta.best_val_acc);
        assert(arith::is_exceeds(ar, accuracy, old(self).meta.best_val_acc, best));
        if best {
            self.meta.best_val_acc = accuracy;
            self.stage = Stage::SaveBest;
        } else {
            self.close_epoch();
        }
    }

    /// The checkpoint has been saved.
    pub fn saved(&mut self)
        requires
            old(self).wf(),
            old(self).stage == Stage::SaveBest || old(self).stage == Stage::SaveEpoch || old(
                self,
            ).stage == Stage::SaveFinal,
        ensures
            *final(self) == old(self).after_save(),
    {
        match self.stage {
            Stage::SaveBest => self.close_epoch(),
            Stage::SaveEpoch => self.go_on(),
            _ => {
                self.stage = Stage::Done;
            },
        }
    }
}

/// `next` is where a run can go from `s` with one answer.
pub open spec fn follows<F>(s: Session<F>, next: Session<F>) -> bool {
    match s.stage {
        Stage::Train => next == s.after_training(),
        Stage::Evaluate => exists|accuracy: F, best: bool|
            next == #[trigger] s.after_evaluation(accuracy, best),
        Stage::Done => false,
        _ => next == s.after_save(),
    }
}

/// Whatever the evaluations give, a run ends: it asks for less and less, and for nothing only
/// when it is done.
pub proof fn session_ends<F>(s: Session<F>, next: Session<F>)
    requires
        s.wf(),
        follows(s, next),
    ensures
        next.wf(),
        0 <= next.left() < s.left(),
        next.left() == 0 <==> next.stage == Stage::Done,
{
}

/// No epoch is left out and none comes twice: a run stays in its epoch, goes on to train the
/// next one, or, after the last one, saves what it has learned.
pub proof fn epochs_in_order<F>(s: Session<F>, next: Session<F>)
    requires
        s.wf(),
        s.in_epoch(),
        follows(s, next),
    ensures
        match next.stage {
            Stage::Train => next.meta.epoch == s.meta.epoch + 1,
            Stage::SaveFinal => next.meta.epoch == s.meta.epoch && s.meta.epoch + 1
                == s.max_epochs,
            Stage::Done => false,
            _ => next.meta.epoch == s.meta.epoch,
        },
{
}

/// An epoch ends with its own checkpoint exactly when one is due, and is evaluated exactly when
/// that is due.
pub proof fn due_is_done<F>(s: Session<F>, next: Session<F>)
    requires
        s.wf(),
        s.in_epoch(),
        follows(s, next),
    ensures
        s.stage == Stage::Train ==> (next.stage == Stage::Evaluate <==> s.eval_due()),
        s.stage != Stage::SaveEpoch && next.stage != Stage::Evaluate && next.stage
            != Stage::SaveBest ==> (next.stage == Stage::SaveEpoch <==> s.save_due()),
        next.stage == Stage::SaveEpoch ==> next.meta.current_batch_size == s.batch_size,
{
}

} // verus!
