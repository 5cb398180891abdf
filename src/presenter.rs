//! The decisions of the render loop: whether to go on, and what each
//! iteration records. Drawing, presenting and sleeping are left to the
//! caller, which performs one iteration per `step` that returns `true`.
use vstd::prelude::*;
use crate::source::SampleSource;
use crate::window::{push_spec, Sample, SampleWindow};

verus! {

/// Whether the loop goes on.
#[derive(Clone, Copy, Debug, PartialEq, Eq, Structural)]
pub enum LoopState {
    Running,
    Stopped,
}

/// The state after one check of the window: running only while it was
/// running, the window is open and the exit key is not down.
pub open spec fn next_state_spec(s: LoopState, window_open: bool, exit_key: bool) -> LoopState {
    if s == LoopState::Running && window_open && !exit_key {
        LoopState::Running
    } else {
        LoopState::Stopped
    }
}

/// A closed window or the exit key stops the loop at the very check that
/// sees it, and a stopped loop never runs again, whatever it sees later.
pub proof fn lemma_stop_is_final(s: LoopState, window_open: bool, exit_key: bool)
    ensures
        !window_open ==> next_state_spec(s, window_open, exit_key) == LoopState::Stopped,
        exit_key ==> next_state_spec(s, window_open, exit_key) == LoopState::Stopped,
        next_state_spec(LoopState::Stopped, window_open, exit_key) == LoopState::Stopped,
{
}

pub fn next_state(s: LoopState, window_open: bool, exit_key: bool) -> (r: LoopState)
    ensures
        r == next_state_spec(s, window_open, exit_key),
{
    if s == LoopState::Running && window_open && !exit_key {
        LoopState::Running
    } else {
        LoopState::Stopped
    }
}

/// A running chart: its loop state, the epoch of the next sample, and the
/// window of recent samples.
pub struct Session {
    state: LoopState,
    epoch: u64,
    samples: SampleWindow,
}

impl Session {
    pub closed spec fn spec_state(&self) -> LoopState {
        self.state
    }

    pub closed spec fn spec_epoch(&self) -> u64 {
        self.epoch
    }

    pub closed spec fn spec_samples(&self) -> SampleWindow {
        self.samples
    }

    /// The window is well formed and every sample in it is older than the
    /// next epoch.
    pub closed spec fn wf(&self) -> bool {
        &&& self.samples.wf()
        &&& (self.samples@.len() > 0 ==> self.samples@.last().epoch < self.epoch)
    }

    /// A running session at epoch 0 with an empty window of `capacity` samples.
    pub fn new(capacity: usize) -> (r: Self)
        ensures
            r.wf(),
            r.spec_state() == LoopState::Running,
            r.spec_epoch() == 0,
            r.spec_samples()@ == Seq::<Sample>::empty(),
            r.spec_samples().spec_capacity() == capacity,
    {
        Session { state: LoopState::Running, epoch: 0, samples: SampleWindow::new(capacity) }
    }

    pub fn state(&self) -> (r: LoopState)
        ensures
            r == self.spec_state(),
    {
        self.state
    }

    pub fn epoch(&self) -> (r: u64)
        ensures
            r == self.spec_epoch(),
    {
        self.epoch
    }

    pub fn samples(&self) -> (r: &SampleWindow)
        requires
            self.wf(),
        ensures
            *r == self.spec_samples(),
            r.wf(),
    {
        &self.samples
    }

    /// One check of the loop condition. While the session runs, the window
    /// is open and the exit key is not down, one value is drawn from
    /// `source`, recorded at the current epoch, the epoch advances, and the
    /// result is `true`: the caller then renders and presents a frame. Else
    /// the session stops, nothing is drawn or recorded, and the result is
    /// `false`. It also stops once the epoch counter is exhausted.
    pub fn step(&mut self, source: &mut SampleSource, window_open: bool, exit_key: bool) -> (r:
        bool)
        requires
            old(self).wf(),
        ensures
            final(self).wf(),
            r == (final(self).spec_state() == LoopState::Running),
            r ==> next_state_spec(old(self).spec_state(), window_open, exit_key)
                == LoopState::Running,
            next_state_spec(old(self).spec_state(), window_open, exit_key) == LoopState::Running
                && old(self).spec_epoch() < u64::MAX ==> r,
            final(self).spec_samples().spec_capacity() == old(self).spec_samples().spec_capacity(),
            r ==> final(self).spec_epoch() == old(self).spec_epoch() + 1,
            r ==> exists|v: u32|
                v < crate::window::VALUE_SCALE && #[trigger] final(self).spec_samples()@ == push_spec(
                    old(self).spec_samples()@,
                    old(self).spec_samples().spec_capacity(),
                    Sample { epoch: old(self).spec_epoch(), value: v },
                ),
            !r ==> {
                &&& final(self).spec_epoch() == old(self).spec_epoch()
                &&& final(self).spec_samples()@ == old(self).spec_samples()@
                &&& *final(source) == *old(source)
            },
    {
        let s = next_state(self.state, window_open, exit_key);
        if s == LoopState::Stopped || self.epoch == u64::MAX {
            self.state = LoopState::Stopped;
            return false;
        }
        let v = source.next();
        proof {
            self.samples.lemma_bounds();
        }
        self.samples.push(self.epoch, v);
        self.epoch = self.epoch + 1;
        self.state = LoopState::Running;
        true
    }
}

} // verus!
