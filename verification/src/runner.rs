//! The two supervision engines, as state machines over plain values.
//!
//! The surrounding daemon does the outside work — spawning the child,
//! reading its streams, sleeping between runs — and hands each completed
//! observation to these machines, which own the iteration counter and decide
//! what the shared cache is told.
//!
//! The incremental-merge runner receives the child's two output streams
//! merged into one ordered line sequence, each line marked with its origin,
//! and segments that sequence into cycles by the line patterns of
//! [`crate::patterns`].  The periodic runner receives one finished command
//! run at a time.

use vstd::prelude::*;

use crate::cache::Cache;
use crate::cache::CacheView;
use crate::cache::CompileResult;
use crate::cache::PollV;
use crate::cache::RunOutput;
use crate::cache::get_spec;
use crate::cache::poll_spec;
use crate::cache::lemma_first_poll_after_update;
use crate::cache::update_spec;
use crate::patterns::CycleEnd;
use crate::patterns::cycle_end;
use crate::patterns::cycle_start;
use crate::patterns::end_count_val;
use crate::patterns::is_cycle_end;
use crate::patterns::is_cycle_start;

verus! {

/// The marker put in front of a line that arrived on the child's secondary
/// (error) stream.
pub open spec fn err_tag() -> Seq<u8> {
    seq![('e' as u8), ('r' as u8), ('r' as u8), (':' as u8), (' ' as u8)]
}

fn err_tag_vec() -> (v: Vec<u8>)
    ensures
        v@ == err_tag(),
{
    let mut v: Vec<u8> = Vec::new();
    v.push('e' as u8);
    v.push('r' as u8);
    v.push('r' as u8);
    v.push(':' as u8);
    v.push(' ' as u8);
    proof {
        assert(v@ =~= err_tag());
    }
    v
}

/// The accumulated lines joined into one text, a newline between each two.
pub open spec fn join_lines(ls: Seq<Seq<u8>>) -> Seq<u8>
    decreases ls.len(),
{
    if ls.len() == 0 {
        Seq::empty()
    } else if ls.len() == 1 {
        ls[0]
    } else {
        join_lines(ls.drop_last()) + seq![10u8] + ls.last()
    }
}

fn join_bytes(lines: &Vec<Vec<u8>>) -> (v: Vec<u8>)
    ensures
        v@ == join_lines(lines.deep_view()),
{
    let mut acc: Vec<u8> = Vec::new();
    let mut idx: usize = 0;
    while idx < lines.len()
        invariant
            idx <= lines@.len(),
            lines.deep_view().len() == lines@.len(),
            acc@ == join_lines(lines.deep_view().subrange(0, idx as int)),
        decreases lines@.len() - idx,
    {
        if idx > 0 {
            acc.push(10u8);
        }
        acc.extend_from_slice(lines[idx].as_slice());
        proof {
            let dv = lines.deep_view();
            assert(dv[idx as int] == lines@[idx as int]@);
            assert(dv.subrange(0, idx + 1 as int).drop_last() =~= dv.subrange(0, idx as int));
            if idx == 0 {
                assert(acc@ =~= join_lines(dv.subrange(0, idx + 1 as int)));
            } else {
                assert(acc@ =~= join_lines(dv.subrange(0, idx as int)) + seq![10u8] + dv[
                    idx as int
                ]);
                assert(acc@ =~= join_lines(dv.subrange(0, idx + 1 as int)));
            }
        }
        idx += 1;
    }
    proof {
        assert(lines.deep_view().subrange(0, lines@.len() as int) =~= lines.deep_view());
    }
    acc
}

/// What one merged line did to the incremental-merge runner.
pub enum FeedOutcome {
    /// The line only joined the current cycle's buffer.
    Accumulated,
    /// The line opened a cycle: the buffer restarted with it and the cache
    /// was told a cycle is in progress.
    CycleStarted,
    /// The line closed a cycle reporting this many errors: the cache was
    /// given the cycle's result and the buffer was cleared.
    CycleCompleted(u16),
    /// The line closed a cycle, but its embedded error count exceeds
    /// `u16::MAX`; nothing was published and the caller should treat the
    /// supervisor as failed.
    CountTooLarge,
}

/// The incremental-merge supervision engine: the current cycle's buffered
/// lines and the iteration counter, fed one merged line at a time.
pub struct MergeRunner {
    iteration: u32,
    lines: Vec<Vec<u8>>,
}

impl MergeRunner {
    /// The iteration the next cache update will carry.
    pub closed spec fn iter_of(&self) -> u32 {
        self.iteration
    }

    /// The lines of the cycle in progress, in arrival order, secondary
    /// lines already tagged.
    pub closed spec fn lines_of(&self) -> Seq<Seq<u8>> {
        self.lines.deep_view()
    }

    /// A fresh runner: nothing buffered, the counter at zero.
    pub fn new() -> (r: Self)
        ensures
            r.iter_of() == 0,
            r.lines_of().len() == 0,
    {
        MergeRunner { iteration: 0, lines: Vec::new() }
    }

    /// The iteration the next cache update will carry.
    pub fn iteration(&self) -> (r: u32)
        ensures
            r == self.iter_of(),
    {
        self.iteration
    }

    /// Feed one merged line.
    ///
    /// A secondary-origin line is tagged and buffered, nothing more.  A
    /// primary line that opens a cycle restarts the buffer and publishes the
    /// in-progress sentinel; every primary line is then buffered; one that
    /// closes a cycle publishes the cycle's error count with the buffer
    /// joined as its text, and clears the buffer.  The iteration counter
    /// advances once per line, so successive publications carry strictly
    /// increasing iterations.
    #[verifier::rlimit(60)]
    pub fn feed_line(
        &mut self,
        state: &mut Cache<Option<CompileResult>>,
        from_secondary: bool,
        line: &[u8],
    ) -> (r: FeedOutcome)
        requires
            old(self).iter_of() < u32::MAX,
            old(state)@.wf(),
        ensures
            final(state)@.wf(),
            final(self).iter_of() == old(self).iter_of() + 1,
            from_secondary ==> {
                &&& r is Accumulated
                &&& final(self).lines_of() == old(self).lines_of().push(err_tag() + line@)
                &&& final(state)@ == old(state)@
            },
            !from_secondary && !is_cycle_start(line@) && !is_cycle_end(line@) ==> {
                &&& r is Accumulated
                &&& final(self).lines_of() == old(self).lines_of().push(line@)
                &&& final(state)@ == old(state)@
            },
            !from_secondary && is_cycle_start(line@) && !is_cycle_end(line@) ==> {
                &&& r is CycleStarted
                &&& final(self).lines_of() == seq![line@]
                &&& final(state)@ == update_spec(
                    old(state)@,
                    old(self).iter_of(),
                    None::<(u16, Seq<u8>)>,
                )
            },
            !from_secondary && is_cycle_end(line@) && end_count_val(line@) <= 65535 ==> {
                &&& r == FeedOutcome::CycleCompleted(end_count_val(line@) as u16)
                &&& final(self).lines_of().len() == 0
                &&& final(state)@ == update_spec(
                    old(state)@,
                    old(self).iter_of(),
                    Some(
                        (
                            end_count_val(line@) as u16,
                            join_lines(
                                (if is_cycle_start(line@) {
                                    seq![line@]
                                } else {
                                    old(self).lines_of().push(line@)
                                }),
                            ),
                        ),
                    ),
                )
            },
            !from_secondary && is_cycle_end(line@) && end_count_val(line@) > 65535 ==> {
                &&& r is CountTooLarge
                &&& final(self).lines_of() == (if is_cycle_start(line@) {
                    seq![line@]
                } else {
                    old(self).lines_of().push(line@)
                })
                &&& final(state)@ == (if is_cycle_start(line@) {
                    update_spec(old(state)@, old(self).iter_of(), None::<(u16, Seq<u8>)>)
                } else {
                    old(state)@
                })
            },
    {
        let it = self.iteration;
        if from_secondary {
            let mut tagged = err_tag_vec();
            tagged.extend_from_slice(line);
            proof {
                assert(tagged@ =~= err_tag() + line@);
            }
            self.lines.push(tagged);
            proof {
                assert(self.lines.deep_view() =~~= old(self).lines.deep_view().push(
                    err_tag() + line@,
                ));
            }
            self.iteration = it + 1;
            return FeedOutcome::Accumulated;
        }
        let ghost s0 = state@;
        let starts = cycle_start(line);
        if starts {
            self.lines.clear();
            state.update(it, None);
        }
        let mut own: Vec<u8> = Vec::new();
        own.extend_from_slice(line);
        proof {
            assert(own@ =~= line@);
        }
        self.lines.push(own);
        proof {
            if starts {
                assert(self.lines.deep_view() =~~= seq![line@]);
            } else {
                assert(self.lines.deep_view() =~~= old(self).lines.deep_view().push(line@));
            }
        }
        match cycle_end(line) {
            CycleEnd::NotEnd => {
                self.iteration = it + 1;
                if starts {
                    FeedOutcome::CycleStarted
                } else {
                    FeedOutcome::Accumulated
                }
            },
            CycleEnd::Errors(count) => {
                let text = join_bytes(&self.lines);
                proof {
                    assert(text.deep_view() =~= text@);
                }
                state.update(it, Some(CompileResult { error_count: count, text }));
                self.lines.clear();
                proof {
                    assert(self.lines.deep_view() =~= Seq::<Seq<u8>>::empty());
                }
                self.iteration = it + 1;
                FeedOutcome::CycleCompleted(count)
            },
            CycleEnd::CountTooLarge => {
                self.iteration = it + 1;
                FeedOutcome::CountTooLarge
            },
        }
    }
}

/// Idle-signaling law: right after a cycle-start publication — the cache
/// told `update(it, None)` with a fresh iteration — both requests report the
/// in-progress sentinel and not stale data: a poll answers
/// `Available(None)` for any cookie whose recorded iteration is not `it`
/// (every cookie, when iterations are supplied monotonically), and a get
/// answers `Some(None)` for any cookie that has not polled earlier.  (A
/// cookie that last polled before the start and then calls get is shown
/// what it was last told, by the get-independence law.)
pub proof fn lemma_idle_signaling(
    s: CacheView<Option<(u16, Seq<u8>)>>,
    c: Seq<u8>,
    it: u32,
)
    requires
        s.wf(),
        s.has_finger(c) ==> s.finger_of(c).0 != it,
    ensures
        poll_spec(update_spec(s, it, None::<(u16, Seq<u8>)>), c).0 == PollV::Available(
            None::<(u16, Seq<u8>)>,
        ),
        !s.has_finger(c) ==> get_spec(update_spec(s, it, None::<(u16, Seq<u8>)>), c) == Some(
            None::<(u16, Seq<u8>)>,
        ),
{
    lemma_first_poll_after_update(s, c, it, None::<(u16, Seq<u8>)>);
}

/// The periodic supervision engine: it owns the iteration counter and
/// records one finished run of the watched command per tick.
pub struct PeriodicRunner {
    iteration: u32,
}

impl PeriodicRunner {
    /// The iteration the next cache update will carry.
    pub closed spec fn iter_of(&self) -> u32 {
        self.iteration
    }

    /// A fresh runner with the counter at zero.
    pub fn new() -> (r: Self)
        ensures
            r.iter_of() == 0,
    {
        PeriodicRunner { iteration: 0 }
    }

    /// The iteration the next cache update will carry.
    pub fn iteration(&self) -> (r: u32)
        ensures
            r == self.iter_of(),
    {
        self.iteration
    }

    /// Publish one finished run as the new snapshot and advance the
    /// counter, so successive snapshots carry strictly increasing
    /// iterations.
    pub fn record_run(&mut self, state: &mut Cache<RunOutput>, output: RunOutput)
        requires
            old(self).iter_of() < u32::MAX,
        ensures
            final(self).iter_of() == old(self).iter_of() + 1,
            final(state)@ == update_spec(old(state)@, old(self).iter_of(), output.deep_view()),
    {
        let it = self.iteration;
        state.update(it, output);
        self.iteration = it + 1;
    }
}

} // verus!
