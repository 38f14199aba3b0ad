//! The rotating metrics log: when it rotates and which files move where.
//!
//! The files themselves are the caller's. A rotation is handed out as a list
//! of steps; what the steps do to the files is modelled on a map from file
//! to content, and the law of rotation is proved on that model.

use vstd::prelude::*;

use crate::config::MetricsLogConfig;

verus! {

/// A file of the log: the active one, or the rotated one with the given
/// index (a lower index is newer).
#[derive(Clone, Copy, Debug, PartialEq, Eq, Hash, Structural)]
pub enum LogFile {
    Active,
    Rotated(u32),
}

/// One step of a rotation.
#[derive(Clone, Copy, Debug, PartialEq, Eq, Structural)]
pub enum RotateStep {
    /// Delete the file if it exists.
    Remove(LogFile),
    /// Rename `from` to `to` if `from` exists.
    Move { from: LogFile, to: LogFile },
    /// Open a fresh, empty active file.
    Reopen,
}

/// The files of a log: each one that exists, with its content.
pub type Files = Map<LogFile, Seq<u8>>;

/// What a step does to the files.
pub open spec fn after_step(files: Files, step: RotateStep) -> Files {
    match step {
        RotateStep::Remove(file) => files.remove(file),
        RotateStep::Move { from, to } => if files.contains_key(from) {
            files.remove(from).insert(to, files[from])
        } else {
            files
        },
        RotateStep::Reopen => files.insert(LogFile::Active, Seq::empty()),
    }
}

/// What a list of steps does, one after the other.
pub open spec fn after_steps(files: Files, steps: Seq<RotateStep>) -> Files
    decreases steps.len(),
{
    if steps.len() == 0 {
        files
    } else {
        after_steps(after_step(files, steps[0]), steps.drop_first())
    }
}

/// The renames that shift the rotated files `upto`, ..., 1 up by one index,
/// the oldest first.
pub open spec fn shift_steps(upto: nat) -> Seq<RotateStep>
    decreases upto,
{
    if upto == 0 {
        Seq::empty()
    } else {
        seq![
            RotateStep::Move {
                from: LogFile::Rotated(upto as u32),
                to: LogFile::Rotated((upto + 1) as u32),
            },
        ] + shift_steps((upto - 1) as nat)
    }
}

/// The steps of a rotation that keeps `max_files` rotated files: delete the
/// oldest, shift the others up, rename the active file to index 1, and open
/// a fresh active file.
pub open spec fn rotation_steps(max_files: u32) -> Seq<RotateStep> {
    seq![RotateStep::Remove(LogFile::Rotated(max_files))] + shift_steps(
        if max_files == 0 {
            0
        } else {
            (max_files - 1) as nat
        },
    ) + seq![
        RotateStep::Move { from: LogFile::Active, to: LogFile::Rotated(1) },
        RotateStep::Reopen,
    ]
}

/// Doing two lists of steps in a row is doing their concatenation.
pub proof fn lemma_steps_compose(files: Files, first: Seq<RotateStep>, second: Seq<RotateStep>)
    ensures
        after_steps(files, first + second) == after_steps(after_steps(files, first), second),
    decreases first.len(),
{
    if first.len() == 0 {
        assert(first + second =~= second);
    } else {
        assert((first + second)[0] == first[0]);
        assert((first + second).drop_first() =~= first.drop_first() + second);
        lemma_steps_compose(after_step(files, first[0]), first.drop_first(), second);
    }
}

/// Shifting the rotated files `upto`, ..., 1 moves each that exists up by
/// one index, leaves index 1 free, and touches no other file.
pub proof fn lemma_shift(files: Files, upto: nat)
    requires
        upto < u32::MAX,
        !files.contains_key(LogFile::Rotated((upto + 1) as u32)),
    ensures
        ({
            let after = after_steps(files, shift_steps(upto));
            &&& forall|i: u32|
                1 <= i <= upto ==> (files.contains_key(LogFile::Rotated(i))
                    <==> #[trigger] after.contains_key(LogFile::Rotated((i + 1) as u32)))
            &&& forall|i: u32|
                1 <= i <= upto && files.contains_key(LogFile::Rotated(i)) ==> #[trigger] after[LogFile::Rotated(
                    (i + 1) as u32,
                )] == files[LogFile::Rotated(i)]
            &&& upto >= 1 ==> !after.contains_key(LogFile::Rotated(1))
            &&& after.contains_key(LogFile::Active) == files.contains_key(LogFile::Active)
            &&& files.contains_key(LogFile::Active) ==> after[LogFile::Active]
                == files[LogFile::Active]
            &&& forall|i: u32|
                (i == 0 || i > upto + 1) ==> (#[trigger] after.contains_key(LogFile::Rotated(i))
                    == files.contains_key(LogFile::Rotated(i)))
            &&& forall|i: u32|
                (i == 0 || i > upto + 1) && files.contains_key(LogFile::Rotated(i))
                    ==> #[trigger] after[LogFile::Rotated(i)] == files[LogFile::Rotated(i)]
        }),
    decreases upto,
{
    if upto > 0 {
        let step = RotateStep::Move {
            from: LogFile::Rotated(upto as u32),
            to: LogFile::Rotated((upto + 1) as u32),
        };
        let steps = shift_steps(upto);
        let rest = shift_steps((upto - 1) as nat);
        assert(steps[0] == step);
        assert(steps.drop_first() =~= rest);
        let moved = after_step(files, step);
        assert(!moved.contains_key(LogFile::Rotated(upto as u32)));
        lemma_shift(moved, (upto - 1) as nat);
        let after = after_steps(moved, rest);
        assert(after == after_steps(files, steps));
        assert forall|i: u32| 1 <= i <= upto implies (files.contains_key(LogFile::Rotated(i))
            <==> #[trigger] after.contains_key(LogFile::Rotated((i + 1) as u32))) by {
            if i < upto {
                assert(moved.contains_key(LogFile::Rotated(i)) == files.contains_key(
                    LogFile::Rotated(i),
                ));
            } else {
                assert(after.contains_key(LogFile::Rotated((upto + 1) as u32))
                    == moved.contains_key(LogFile::Rotated((upto + 1) as u32)));
            }
        }
        assert forall|i: u32|
            1 <= i <= upto && files.contains_key(LogFile::Rotated(i)) implies #[trigger] after[LogFile::Rotated(
            (i + 1) as u32,
        )] == files[LogFile::Rotated(i)] by {
            if i < upto {
                assert(moved.contains_key(LogFile::Rotated(i)));
                assert(moved[LogFile::Rotated(i)] == files[LogFile::Rotated(i)]);
            } else {
                assert(moved.contains_key(LogFile::Rotated((upto + 1) as u32)));
                assert(after.contains_key(LogFile::Rotated((upto + 1) as u32))
                    == moved.contains_key(LogFile::Rotated((upto + 1) as u32)));
            }
        }
        assert(!after.contains_key(LogFile::Rotated(1))) by {
            if upto == 1 {
                assert(after.contains_key(LogFile::Rotated(1)) == moved.contains_key(
                    LogFile::Rotated(1),
                ));
            }
        }
        assert forall|i: u32| (i == 0 || i > upto + 1) implies (#[trigger] after.contains_key(
            LogFile::Rotated(i),
        ) == files.contains_key(LogFile::Rotated(i))) by {
            assert(moved.contains_key(LogFile::Rotated(i)) == files.contains_key(
                LogFile::Rotated(i),
            ));
        }
        assert forall|i: u32|
            (i == 0 || i > upto + 1) && files.contains_key(
                LogFile::Rotated(i),
            ) implies #[trigger] after[LogFile::Rotated(i)] == files[LogFile::Rotated(i)] by {
            assert(moved.contains_key(LogFile::Rotated(i)));
            assert(moved[LogFile::Rotated(i)] == files[LogFile::Rotated(i)]);
        }
    }
}

/// Rotation keeps the order from newest to oldest. After a rotation that
/// keeps at least one file, index 1 holds what the active file held, each
/// rotated file below `max_files` that existed has moved up by one index
/// with its content, the active file is fresh and empty, and nothing lies
/// beyond `max_files` that did not lie there before.
pub proof fn lemma_rotation_keeps_order(files: Files, max_files: u32)
    requires
        max_files >= 1,
        files.contains_key(LogFile::Active),
    ensures
        ({
            let after = after_steps(files, rotation_steps(max_files));
            &&& after.contains_key(LogFile::Rotated(1))
            &&& after[LogFile::Rotated(1)] == files[LogFile::Active]
            &&& after.contains_key(LogFile::Active)
            &&& after[LogFile::Active] == Seq::<u8>::empty()
            &&& forall|i: u32|
                1 <= i < max_files && files.contains_key(LogFile::Rotated(i))
                    ==> #[trigger] after.contains_key(LogFile::Rotated((i + 1) as u32))
                    && after[LogFile::Rotated((i + 1) as u32)] == files[LogFile::Rotated(i)]
            &&& forall|i: u32|
                i > max_files ==> (#[trigger] after.contains_key(LogFile::Rotated(i))
                    == files.contains_key(LogFile::Rotated(i)))
        }),
{
    let oldest = seq![RotateStep::Remove(LogFile::Rotated(max_files))];
    let shift = shift_steps((max_files - 1) as nat);
    let retire = seq![RotateStep::Move { from: LogFile::Active, to: LogFile::Rotated(1) }];
    let reopen = seq![RotateStep::Reopen];
    let tail = seq![
        RotateStep::Move { from: LogFile::Active, to: LogFile::Rotated(1) },
        RotateStep::Reopen,
    ];
    assert(tail =~= retire + reopen);
    assert(rotation_steps(max_files) == oldest + shift + tail);
    let cleared = after_step(files, oldest[0]);
    assert(after_steps(files, oldest) == cleared) by {
        assert(oldest.drop_first() =~= Seq::<RotateStep>::empty());
        assert(after_steps(cleared, oldest.drop_first()) == cleared);
    }
    lemma_shift(cleared, (max_files - 1) as nat);
    let shifted = after_steps(cleared, shift);
    lemma_steps_compose(files, oldest, shift);
    lemma_steps_compose(files, oldest + shift, tail);
    lemma_steps_compose(shifted, retire, reopen);
    let retired = after_step(shifted, retire[0]);
    assert(after_steps(shifted, retire) == retired) by {
        assert(retire.drop_first() =~= Seq::<RotateStep>::empty());
        assert(after_steps(retired, retire.drop_first()) == retired);
    }
    let after = after_step(retired, reopen[0]);
    assert(after_steps(retired, reopen) == after) by {
        assert(reopen.drop_first() =~= Seq::<RotateStep>::empty());
        assert(after_steps(after, reopen.drop_first()) == after);
    }
    assert(after == after_steps(files, rotation_steps(max_files)));
    assert(cleared.contains_key(LogFile::Active));
    assert(shifted.contains_key(LogFile::Active));
    assert forall|i: u32|
        1 <= i < max_files && files.contains_key(
            LogFile::Rotated(i),
        ) implies #[trigger] after.contains_key(LogFile::Rotated((i + 1) as u32))
        && after[LogFile::Rotated((i + 1) as u32)] == files[LogFile::Rotated(i)] by {
        assert(cleared.contains_key(LogFile::Rotated(i)));
        assert(cleared[LogFile::Rotated(i)] == files[LogFile::Rotated(i)]);
        assert(shifted.contains_key(LogFile::Rotated((i + 1) as u32)));
        assert(shifted[LogFile::Rotated((i + 1) as u32)] == cleared[LogFile::Rotated(i)]);
    }
    assert forall|i: u32| i > max_files implies (#[trigger] after.contains_key(
        LogFile::Rotated(i),
    ) == files.contains_key(LogFile::Rotated(i))) by {
        assert(shifted.contains_key(LogFile::Rotated(i)) == cleared.contains_key(
            LogFile::Rotated(i),
        ));
    }
}

/// The settings of the log that its writer goes by.
#[derive(Debug)]
pub struct MetricsLogger {
    pub path: String,
    pub max_size_mb: u64,
    pub max_files: u32,
}

impl MetricsLogger {
    /// A logger for the configured log.
    pub fn new(config: &MetricsLogConfig) -> (logger: Self)
        ensures
            logger.path == config.path,
            logger.max_size_mb == config.max_size_mb,
            logger.max_files == config.max_files,
    {
        MetricsLogger {
            path: config.path.clone(),
            max_size_mb: config.max_size_mb,
            max_files: config.max_files,
        }
    }

    /// Whether the log rotates once the active file has `size` bytes: it
    /// does where the size has reached `max_size_mb` MiB.
    pub fn needs_rotation(&self, size: u64) -> (due: bool)
        ensures
            due == (size as int >= self.max_size_mb as int * 1_048_576),
    {
        let limit: u128 = (self.max_size_mb as u128) * 1_048_576u128;
        (size as u128) >= limit
    }

    /// What follows the writing of a line, once the line is flushed and the
    /// active file has `size` bytes: the steps of a rotation where one is
    /// due, else nothing.
    pub fn write_line(&self, size: u64) -> (steps: Vec<RotateStep>)
        ensures
            steps@ == if size as int >= self.max_size_mb as int * 1_048_576 {
                rotation_steps(self.max_files)
            } else {
                Seq::<RotateStep>::empty()
            },
    {
        if self.needs_rotation(size) {
            self.rotate()
        } else {
            Vec::new()
        }
    }

    /// The steps of a rotation, in the order in which they are done.
    pub fn rotate(&self) -> (steps: Vec<RotateStep>)
        ensures
            steps@ == rotation_steps(self.max_files),
    {
        let mut steps: Vec<RotateStep> = Vec::new();
        steps.push(RotateStep::Remove(LogFile::Rotated(self.max_files)));
        let mut index: u32 = if self.max_files == 0 {
            0
        } else {
            self.max_files - 1
        };
        let ghost head = seq![RotateStep::Remove(LogFile::Rotated(self.max_files))];
        let ghost all = shift_steps(index as nat);
        proof {
            assert(steps@ =~= head);
            assert(steps@ + shift_steps(index as nat) =~= head + all);
        }
        while index >= 1
            invariant
                index < u32::MAX,
                steps@ + shift_steps(index as nat) == head + all,
            decreases index,
        {
            let step = RotateStep::Move {
                from: LogFile::Rotated(index),
                to: LogFile::Rotated(index + 1),
            };
            let ghost before = steps@;
            steps.push(step);
            proof {
                assert(shift_steps(index as nat) == seq![step] + shift_steps((index - 1) as nat));
                assert(steps@ + shift_steps((index - 1) as nat) =~= before + shift_steps(
                    index as nat,
                ));
            }
            index = index - 1;
        }
        let ghost shifted = steps@;
        steps.push(RotateStep::Move { from: LogFile::Active, to: LogFile::Rotated(1) });
        steps.push(RotateStep::Reopen);
        proof {
            assert(shifted + shift_steps(0) =~= shifted);
            assert(steps@ =~= shifted + seq![
                RotateStep::Move { from: LogFile::Active, to: LogFile::Rotated(1) },
                RotateStep::Reopen,
            ]);
        }
        steps
    }
}

/// The files of a log in the order in which they are replayed: the rotated
/// ones from `upto` down to 1, then the active one.
pub open spec fn replay_files(upto: nat) -> Seq<LogFile>
    decreases upto,
{
    if upto == 0 {
        seq![LogFile::Active]
    } else {
        seq![LogFile::Rotated(upto as u32)] + replay_files((upto - 1) as nat)
    }
}

/// Replay goes from the oldest file to the newest: the rotated files by
/// falling index, then the active file.
pub proof fn lemma_replay_oldest_first(upto: nat)
    requires
        upto <= u32::MAX,
    ensures
        replay_files(upto).len() == upto + 1,
        forall|k: int|
            0 <= k < upto ==> #[trigger] replay_files(upto)[k] == LogFile::Rotated(
                (upto - k) as u32,
            ),
        replay_files(upto)[upto as int] == LogFile::Active,
    decreases upto,
{
    if upto > 0 {
        lemma_replay_oldest_first((upto - 1) as nat);
        let rest = replay_files((upto - 1) as nat);
        assert forall|k: int| 0 <= k < upto implies #[trigger] replay_files(upto)[k]
            == LogFile::Rotated((upto - k) as u32) by {
            if k > 0 {
                assert(replay_files(upto)[k] == rest[k - 1]);
            }
        }
        assert(replay_files(upto)[upto as int] == rest[upto - 1]);
    }
}

/// The files to replay, oldest first.
pub fn replay_order(max_files: u32) -> (order: Vec<LogFile>)
    ensures
        order@ == replay_files(max_files as nat),
{
    let mut order: Vec<LogFile> = Vec::new();
    let mut index: u32 = max_files;
    proof {
        assert(order@ + replay_files(index as nat) =~= replay_files(max_files as nat));
    }
    while index >= 1
        invariant
            order@ + replay_files(index as nat) == replay_files(max_files as nat),
        decreases index,
    {
        let ghost before = order@;
        order.push(LogFile::Rotated(index));
        proof {
            assert(order@ + replay_files((index - 1) as nat) =~= before + replay_files(
                index as nat,
            ));
        }
        index = index - 1;
    }
    let ghost before = order@;
    order.push(LogFile::Active);
    proof {
        assert(order@ =~= before + replay_files(0));
    }
    order
}

} // verus!
