//! The dispatcher's decisions: what each command means given whether the
//! server is reachable. The caller performs the step and, after a soft
//! repair that did not fall back, reports the engine online.
use vstd::prelude::*;
use crate::books::{CancelCounter, EchoSet};
use crate::events::{event_views, parsed_usize, EventModel, NCEvent, NCState};
use crate::local::LocalEvent;
use crate::{batch_is_newer, Command};

verus! {

/// What the caller does next.
#[derive(Debug)]
pub enum Step {
    /// Handle this local event now.
    HandleLocal(LocalEvent),
    /// The local event was kept for the reconnection.
    Buffered,
    /// Apply these remote events; the cursor was advanced.
    ApplyRemote(Vec<NCEvent>),
    /// Run a soft repair with the events kept while offline.
    SoftRepair(Vec<LocalEvent>),
    HardRepair,
    NormalRepair,
    /// Leave the loop; restart when `true`.
    Stop(bool),
    /// A cursor that does not read as a number arrived.
    InvalidCursor,
    Nothing,
}

/// The dispatcher's own state: reachability, the local events kept while
/// offline, and the two cancellation books.
#[derive(Debug)]
pub struct Session {
    pub online: bool,
    pub offline_queue: Vec<LocalEvent>,
    pub nc2l: CancelCounter,
    pub l2nc: EchoSet,
}

pub open spec fn local_views(v: Seq<LocalEvent>) -> Seq<EventModel> {
    v.map_values(|e: LocalEvent| e@)
}

impl Session {
    pub open spec fn wf(&self) -> bool {
        self.nc2l.wf() && self.l2nc.wf()
    }

    pub fn new(online: bool) -> (r: Session)
        ensures
            r.wf(),
            r.online == online,
            r.offline_queue@.len() == 0,
            r.nc2l@ == Map::<Seq<char>, nat>::empty(),
            r.l2nc@ == Set::<EventModel>::empty(),
    {
        Session { online, offline_queue: Vec::new(), nc2l: CancelCounter::new(), l2nc: EchoSet::new() }
    }

    /// Forgets both books, as when repair falls back to a fresh tree.
    pub fn clear_books(&mut self)
        ensures
            final(self).wf(),
            final(self).online == old(self).online,
            final(self).offline_queue == old(self).offline_queue,
            final(self).nc2l@ == Map::<Seq<char>, nat>::empty(),
            final(self).l2nc@ == Set::<EventModel>::empty(),
    {
        self.nc2l = CancelCounter::new();
        self.l2nc = EchoSet::new();
    }

    /// Reachability is back and the soft repair succeeded.
    pub fn set_online(&mut self)
        ensures
            final(self).online,
            final(self).offline_queue == old(self).offline_queue,
            final(self).nc2l == old(self).nc2l,
            final(self).l2nc == old(self).l2nc,
    {
        self.online = true;
    }

    /// The step for a command. Local events wait while offline; remote
    /// batches apply only online and when newer than `state`; losing the
    /// server empties both books; regaining it asks for a soft repair with
    /// the kept events.
    pub fn dispatch(&mut self, cmd: Command, state: &mut NCState) -> (r: Step)
        requires
            old(self).wf(),
        ensures
            final(self).wf(),
            match cmd {
                Command::LocEvent(ev) => if old(self).online {
                    r matches Step::HandleLocal(e) && e@ == ev@ && *final(self) == *old(self)
                } else {
                    r is Buffered && local_views(final(self).offline_queue@) == local_views(
                        old(self).offline_queue@,
                    ).push(ev@) && final(self).online == old(self).online
                },
                Command::NCEvents(evs, new_state) => if !old(self).online {
                    r is Nothing && *final(self) == *old(self) && *final(state) == *old(state)
                } else if parsed_usize(old(state).latest_activity_id@) is None || parsed_usize(
                    new_state.latest_activity_id@,
                ) is None {
                    r is InvalidCursor && *final(self) == *old(self) && *final(state) == *old(state)
                } else if parsed_usize(new_state.latest_activity_id@)->0 <= parsed_usize(
                    old(state).latest_activity_id@,
                )->0 {
                    r is Nothing && *final(self) == *old(self) && *final(state) == *old(state)
                } else {
                    r matches Step::ApplyRemote(v) && event_views(v@) == event_views(evs@)
                        && final(state).latest_activity_id@ == new_state.latest_activity_id@ && *final(self)
                        == *old(self)
                },
                Command::NetworkConnect => if old(self).online {
                    r is Nothing && *final(self) == *old(self)
                } else {
                    r matches Step::SoftRepair(q) && local_views(q@) == local_views(old(self).offline_queue@)
                        && final(self).offline_queue@.len() == 0 && !final(self).online
                },
                Command::NetworkDisconnect => if old(self).online {
                    r is Nothing && !final(self).online && final(self).nc2l@ == Map::<Seq<char>, nat>::empty()
                        && final(self).l2nc@ == Set::<EventModel>::empty()
                } else {
                    r is Nothing && *final(self) == *old(self)
                },
                Command::UpdateExcFile => r matches Step::Stop(true) && *final(self) == *old(self),
                Command::UpdateConfigFile => r matches Step::Stop(true) && *final(self) == *old(self),
                Command::HardRepair => r is HardRepair && *final(self) == *old(self),
                Command::NormalRepair => r is NormalRepair && *final(self) == *old(self),
                Command::Terminate(retry) => r matches Step::Stop(x) && x == retry && *final(self) == *old(self),
                Command::Error(_) => r is Nothing && *final(self) == *old(self),
            },
    {
        match cmd {
            Command::LocEvent(ev) => {
                if self.online {
                    Step::HandleLocal(ev)
                } else {
                    let ghost q0 = local_views(self.offline_queue@);
                    let ghost em = ev@;
                    self.offline_queue.push(ev);
                    assert(local_views(self.offline_queue@) =~= q0.push(em));
                    Step::Buffered
                }
            },
            Command::NCEvents(evs, new_state) => {
                if !self.online {
                    return Step::Nothing;
                }
                match batch_is_newer(state, &new_state) {
                    None => Step::InvalidCursor,
                    Some(false) => Step::Nothing,
                    Some(true) => {
                        *state = new_state;
                        Step::ApplyRemote(evs)
                    },
                }
            },
            Command::NetworkConnect => {
                if self.online {
                    Step::Nothing
                } else {
                    let ghost all = local_views(self.offline_queue@);
                    let mut q: Vec<LocalEvent> = Vec::new();
                    while self.offline_queue.len() > 0
                        invariant
                            all == local_views(q@) + local_views(self.offline_queue@),
                            !self.online,
                            self.nc2l.wf(),
                            self.l2nc.wf(),
                        decreases self.offline_queue@.len(),
                    {
                        let ghost rest = local_views(self.offline_queue@);
                        let ghost got = local_views(q@);
                        let x = self.offline_queue.remove(0);
                        let ghost xm = x@;
                        q.push(x);
                        proof {
                            assert(rest =~= seq![xm] + local_views(self.offline_queue@));
                            assert(local_views(q@) =~= got.push(xm));
                            assert(all =~= local_views(q@) + local_views(self.offline_queue@));
                        }
                    }
                    assert(local_views(q@) =~= all);
                    Step::SoftRepair(q)
                }
            },
            Command::NetworkDisconnect => {
                if self.online {
                    self.nc2l = CancelCounter::new();
                    self.l2nc = EchoSet::new();
                    self.online = false;
                }
                Step::Nothing
            },
            Command::UpdateExcFile | Command::UpdateConfigFile => Step::Stop(true),
            Command::HardRepair => Step::HardRepair,
            Command::NormalRepair => Step::NormalRepair,
            Command::Terminate(retry) => Step::Stop(retry),
            Command::Error(_) => Step::Nothing,
        }
    }
}

} // verus!
