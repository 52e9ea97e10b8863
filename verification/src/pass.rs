//! One dispatch pass: the listeners that an event is due to reach, handed out
//! one at a time, with each listener's answer deciding what follows.
//!
//! A pass is planned in full when it begins, so nothing that changes afterwards
//! can alter it. The host asks for the next listener, invokes it, and reports
//! how it went. A listener that claims what it was given stops it from
//! travelling further out: the listeners still due on the same node are
//! called, those on the nodes further out are not. A listener that fails is
//! noted and the pass goes on.

use crate::focus::NodeId;
use crate::keymap::label_view;
use vstd::prelude::*;

verus! {

/// The identity of a listener: its position in the order of registration.
#[derive(Clone, Copy, Debug, PartialEq, Eq, Hash, Structural)]
pub struct ListenerId(pub usize);

/// One call that is due: which listener, registered on which node.
#[derive(Clone, Copy, Debug, PartialEq, Eq, Hash, Structural)]
pub struct Invocation {
    pub listener: ListenerId,
    pub node: NodeId,
}

/// What a listener is given.
#[derive(Clone, Copy, Debug, PartialEq, Eq, Hash, Structural)]
pub enum Phase {
    /// The event itself.
    Event,
    /// The action that a key binding made of the event.
    Action,
}

/// A call handed out to the host.
#[derive(Clone, Copy, Debug, PartialEq, Eq, Hash, Structural)]
pub struct Delivery {
    pub invocation: Invocation,
    pub phase: Phase,
}

/// How an invoked listener answered.
#[derive(Clone, Copy, Debug, PartialEq, Eq, Hash, Structural)]
pub enum ListenerOutcome {
    /// It ran and left the propagation alone.
    Continue,
    /// It claimed what it was given: no node further out is to get it.
    Handled,
    /// It failed. This counts as not claimed.
    Failed,
}

/// Whether a claim on the event itself also withholds the bound action.
#[derive(Clone, Copy, Debug, PartialEq, Eq, Hash, Structural)]
pub enum ClaimPolicy {
    /// The event and the action made of it are claimed separately.
    Independent,
    /// A listener that claims the event also stops the action.
    RawClaimStopsAction,
}

/// The mathematical value of a [`DispatchPass`].
pub struct PassView {
    /// The calls still due with the event itself, next first.
    pub events: Seq<Invocation>,
    /// The calls still due with the bound action, next first. They follow
    /// those with the event.
    pub actions: Seq<Invocation>,
    /// The name of the bound action, if a binding matched.
    pub action: Option<Seq<char>>,
    /// The call handed out last, as long as no answer to it has come in.
    pub last: Option<Delivery>,
    pub policy: ClaimPolicy,
    /// The listeners reported as failed, in the order of the reports.
    pub failures: Seq<ListenerId>,
}

impl PassView {
    /// The pass in which nothing is due.
    pub open spec fn idle(policy: ClaimPolicy) -> PassView {
        PassView {
            events: Seq::empty(),
            actions: Seq::empty(),
            action: None,
            last: None,
            policy,
            failures: Seq::empty(),
        }
    }

    /// The call that is handed out next.
    pub open spec fn upcoming(self) -> Option<Delivery> {
        if self.events.len() > 0 {
            Some(Delivery { invocation: self.events[0], phase: Phase::Event })
        } else if self.actions.len() > 0 {
            Some(Delivery { invocation: self.actions[0], phase: Phase::Action })
        } else {
            None
        }
    }

    /// The pass after the next call has been handed out.
    pub open spec fn after_next(self) -> PassView {
        if self.events.len() > 0 {
            PassView { events: self.events.drop_first(), last: self.upcoming(), ..self }
        } else if self.actions.len() > 0 {
            PassView { actions: self.actions.drop_first(), last: self.upcoming(), ..self }
        } else {
            PassView { last: None, ..self }
        }
    }

    /// The pass after the listener handed out last has answered `outcome`.
    pub open spec fn after_report(self, outcome: ListenerOutcome) -> PassView {
        match self.last {
            None => self,
            Some(delivery) => match outcome {
                ListenerOutcome::Continue => PassView { last: None, ..self },
                ListenerOutcome::Failed => PassView {
                    last: None,
                    failures: self.failures.push(delivery.invocation.listener),
                    ..self
                },
                ListenerOutcome::Handled => match delivery.phase {
                    Phase::Event => PassView {
                        last: None,
                        events: same_node_run(self.events, delivery.invocation.node),
                        actions: if self.policy == ClaimPolicy::RawClaimStopsAction {
                            Seq::empty()
                        } else {
                            self.actions
                        },
                        ..self
                    },
                    Phase::Action => PassView {
                        last: None,
                        actions: same_node_run(self.actions, delivery.invocation.node),
                        ..self
                    },
                },
            },
        }
    }

    /// The calls that the host makes, in order, when it runs the pass to its
    /// end and the listeners answer with `outcomes`, first answer first. Where
    /// the answers run out, `Continue` stands in.
    pub open spec fn run(self, outcomes: Seq<ListenerOutcome>) -> Seq<Delivery>
        decreases self.events.len() + self.actions.len(),
    {
        match self.upcoming() {
            None => Seq::empty(),
            Some(delivery) => {
                let outcome = if outcomes.len() > 0 {
                    outcomes[0]
                } else {
                    ListenerOutcome::Continue
                };
                let rest = if outcomes.len() > 0 {
                    outcomes.drop_first()
                } else {
                    outcomes
                };
                proof {
                    lemma_same_node_run(self.after_next().events, delivery.invocation.node);
                    lemma_same_node_run(self.after_next().actions, delivery.invocation.node);
                }
                seq![delivery] + self.after_next().after_report(outcome).run(rest)
            },
        }
    }

    /// Everything that is due, in order, each call with what it is given.
    pub open spec fn due(self) -> Seq<Delivery> {
        self.events.map_values(|invocation| Delivery { invocation, phase: Phase::Event })
            + self.actions.map_values(|invocation| Delivery { invocation, phase: Phase::Action })
    }
}

/// The calls of `calls` from position `done` up to position `end`.
pub open spec fn pending(calls: Seq<Invocation>, done: usize, end: usize) -> Seq<Invocation> {
    if done <= end <= calls.len() {
        calls.subrange(done as int, end as int)
    } else {
        Seq::empty()
    }
}

/// The calls at the front of `calls` that stand on `node`: all of them up to
/// the first that stands on another node.
pub open spec fn same_node_run(calls: Seq<Invocation>, node: NodeId) -> Seq<Invocation>
    decreases calls.len(),
{
    if calls.len() > 0 && calls[0].node == node {
        seq![calls[0]] + same_node_run(calls.drop_first(), node)
    } else {
        Seq::empty()
    }
}

/// The listeners that an event is due to reach, in order.
#[derive(Clone, Debug)]
pub struct DispatchPass {
    events: Vec<Invocation>,
    actions: Vec<Invocation>,
    action: Option<String>,
    /// How many of `events` have been handed out.
    events_done: usize,
    /// The position in `events` from which on the calls are withheld.
    events_end: usize,
    /// How many of `actions` have been handed out.
    actions_done: usize,
    /// The position in `actions` from which on the calls are withheld.
    actions_end: usize,
    last: Option<Delivery>,
    policy: ClaimPolicy,
    failures: Vec<ListenerId>,
}

impl View for DispatchPass {
    type V = PassView;

    closed spec fn view(&self) -> PassView {
        PassView {
            events: pending(self.events@, self.events_done, self.events_end),
            actions: pending(self.actions@, self.actions_done, self.actions_end),
            action: label_view(self.action),
            last: self.last,
            policy: self.policy,
            failures: self.failures@,
        }
    }
}

impl DispatchPass {
    /// The pass in which `events` and then `actions` are due.
    pub(crate) fn plan(
        events: Vec<Invocation>,
        actions: Vec<Invocation>,
        action: Option<String>,
        policy: ClaimPolicy,
    ) -> (r: DispatchPass)
        ensures
            r@ == (PassView {
                events: events@,
                actions: actions@,
                action: label_view(action),
                last: None,
                policy,
                failures: Seq::empty(),
            }),
    {
        let events_end = events.len();
        let actions_end = actions.len();
        let pass = DispatchPass {
            events,
            actions,
            action,
            events_done: 0,
            events_end,
            actions_done: 0,
            actions_end,
            last: None,
            policy,
            failures: Vec::new(),
        };
        proof {
            assert(pass.events@.subrange(0, events_end as int) =~= pass.events@);
            assert(pass.actions@.subrange(0, actions_end as int) =~= pass.actions@);
        }
        pass
    }

    /// The name of the action that a key binding made of the event.
    pub fn action(&self) -> (r: &Option<String>)
        ensures
            label_view(*r) == self@.action,
    {
        &self.action
    }

    /// The listeners reported as failed so far.
    pub fn failures(&self) -> (r: &Vec<ListenerId>)
        ensures
            r@ == self@.failures,
    {
        &self.failures
    }

    /// Hands out the next call that is due, or `None` when the pass is over.
    pub fn next(&mut self) -> (r: Option<Delivery>)
        ensures
            r == old(self)@.upcoming(),
            final(self)@ == old(self)@.after_next(),
    {
        if self.events_done < self.events_end && self.events_end <= self.events.len() {
            let delivery = Delivery {
                invocation: self.events[self.events_done],
                phase: Phase::Event,
            };
            proof {
                assert(self.events@.subrange(
                    self.events_done as int,
                    self.events_end as int,
                ).drop_first() =~= self.events@.subrange(
                    self.events_done + 1,
                    self.events_end as int,
                ));
            }
            self.events_done = self.events_done + 1;
            self.last = Some(delivery);
            Some(delivery)
        } else if self.actions_done < self.actions_end && self.actions_end
            <= self.actions.len() {
            let delivery = Delivery {
                invocation: self.actions[self.actions_done],
                phase: Phase::Action,
            };
            proof {
                assert(self.actions@.subrange(
                    self.actions_done as int,
                    self.actions_end as int,
                ).drop_first() =~= self.actions@.subrange(
                    self.actions_done + 1,
                    self.actions_end as int,
                ));
            }
            self.actions_done = self.actions_done + 1;
            self.last = Some(delivery);
            Some(delivery)
        } else {
            self.last = None;
            None
        }
    }

    /// Takes the answer of the listener that was handed out last. An answer
    /// that follows no call, or a second answer to one call, changes nothing.
    pub fn report(&mut self, outcome: ListenerOutcome)
        ensures
            final(self)@ == old(self)@.after_report(outcome),
    {
        let last = self.last;
        match last {
            None => {},
            Some(delivery) => {
                self.last = None;
                match outcome {
                    ListenerOutcome::Continue => {},
                    ListenerOutcome::Failed => {
                        self.failures.push(delivery.invocation.listener);
                    },
                    ListenerOutcome::Handled => {
                        let node = delivery.invocation.node;
                        match delivery.phase {
                            Phase::Event => {
                                self.events_end = run_end(
                                    &self.events,
                                    self.events_done,
                                    self.events_end,
                                    node,
                                );
                                if self.policy == ClaimPolicy::RawClaimStopsAction {
                                    self.actions_end = self.actions_done;
                                    proof {
                                        assert(pending(
                                            self.actions@,
                                            self.actions_done,
                                            self.actions_end,
                                        ) =~= Seq::<Invocation>::empty());
                                    }
                                }
                            },
                            Phase::Action => {
                                self.actions_end = run_end(
                                    &self.actions,
                                    self.actions_done,
                                    self.actions_end,
                                    node,
                                );
                            },
                        }
                    },
                }
            },
        }
    }
}

/// Where the run of calls on `node` ends that begins at position `done` of
/// `calls`, looking no further than position `end`.
fn run_end(calls: &Vec<Invocation>, done: usize, end: usize, node: NodeId) -> (r: usize)
    ensures
        pending(calls@, done, r) == same_node_run(pending(calls@, done, end), node),
{
    if !(done <= end && end <= calls.len()) {
        return end;
    }
    let mut i: usize = done;
    proof {
        assert(calls@.subrange(done as int, done as int) =~= Seq::<Invocation>::empty());
        assert(Seq::<Invocation>::empty() + same_node_run(pending(calls@, done, end), node)
            =~= same_node_run(pending(calls@, done, end), node));
    }
    while i < end && calls[i].node == node
        invariant
            done <= i <= end <= calls.len(),
            same_node_run(pending(calls@, done, end), node) == calls@.subrange(
                done as int,
                i as int,
            ) + same_node_run(calls@.subrange(i as int, end as int), node),
        decreases end - i,
    {
        proof {
            let rest = calls@.subrange(i as int, end as int);
            assert(rest[0] == calls@[i as int]);
            assert(rest.drop_first() =~= calls@.subrange(i + 1, end as int));
            assert(calls@.subrange(done as int, i as int) + (seq![rest[0]] + same_node_run(
                rest.drop_first(),
                node,
            )) =~= calls@.subrange(done as int, i + 1) + same_node_run(
                rest.drop_first(),
                node,
            ));
        }
        i += 1;
    }
    proof {
        let rest = calls@.subrange(i as int, end as int);
        assert(same_node_run(rest, node) =~= Seq::<Invocation>::empty());
        assert(calls@.subrange(done as int, i as int) + Seq::<Invocation>::empty()
            =~= calls@.subrange(done as int, i as int));
    }
    i
}

/// The run of calls on a node at the front of `calls` is a front part of
/// `calls`, holds only calls on that node, and ends where `calls` ends or the
/// next call stands on another node.
pub proof fn lemma_same_node_run(calls: Seq<Invocation>, node: NodeId)
    ensures
        same_node_run(calls, node).len() <= calls.len(),
        same_node_run(calls, node) == calls.take(same_node_run(calls, node).len() as int),
        forall|i: int|
            0 <= i < same_node_run(calls, node).len() ==> (#[trigger] calls[i]).node == node,
        same_node_run(calls, node).len() < calls.len() ==> calls[same_node_run(
            calls,
            node,
        ).len() as int].node != node,
    decreases calls.len(),
{
    if calls.len() > 0 && calls[0].node == node {
        let rest = calls.drop_first();
        lemma_same_node_run(rest, node);
        let run = same_node_run(rest, node);
        assert(seq![calls[0]] + rest.take(run.len() as int) =~= calls.take(run.len() as int + 1));
        assert forall|i: int| 0 <= i < run.len() + 1 implies (#[trigger] calls[i]).node
            == node by {
            if i > 0 {
                assert(calls[i] == rest[i - 1]);
            }
        }
        if run.len() + 1 < calls.len() {
            assert(calls[run.len() as int + 1] == rest[run.len() as int]);
        }
    } else {
        assert(calls.take(0) =~= Seq::<Invocation>::empty());
    }
}

/// Where no listener claims what it is given, every call that is due is made,
/// each once, in order.
pub proof fn lemma_unclaimed_run(pass: PassView, outcomes: Seq<ListenerOutcome>)
    requires
        forall|i: int| 0 <= i < outcomes.len() ==> outcomes[i] != ListenerOutcome::Handled,
    ensures
        pass.run(outcomes) == pass.due(),
    decreases pass.events.len() + pass.actions.len(),
{
    match pass.upcoming() {
        None => {
            assert(pass.due() =~= Seq::<Delivery>::empty());
        },
        Some(delivery) => {
            let outcome = if outcomes.len() > 0 {
                outcomes[0]
            } else {
                ListenerOutcome::Continue
            };
            let rest = if outcomes.len() > 0 {
                outcomes.drop_first()
            } else {
                outcomes
            };
            let next = pass.after_next().after_report(outcome);
            assert(next.events == pass.after_next().events);
            assert(next.actions == pass.after_next().actions);
            lemma_unclaimed_run(next, rest);
            assert(pass.due() =~= seq![delivery] + next.due());
        },
    }
}

/// A claim on the event itself keeps it from every node but the one on which
/// it was claimed. Under the policy of separate claims it withholds none of
/// the calls due with the bound action; under the other policy, all of them.
pub proof fn lemma_claimed_event(pass: PassView)
    requires
        pass.events.len() > 0,
    ensures
        forall|i: int|
            0 <= i < pass.after_next().after_report(ListenerOutcome::Handled).events.len() ==> (
            #[trigger] pass.after_next().after_report(
                ListenerOutcome::Handled,
            ).events[i]).node == pass.events[0].node,
        pass.after_next().after_report(ListenerOutcome::Handled).actions == if pass.policy
            == ClaimPolicy::Independent {
            pass.actions
        } else {
            Seq::empty()
        },
{
    let rest = pass.after_next().events;
    let node = pass.events[0].node;
    lemma_same_node_run(rest, node);
    let kept = same_node_run(rest, node);
    assert forall|i: int| 0 <= i < kept.len() implies (#[trigger] kept[i]).node == node by {
        assert(kept[i] == rest[i]);
    }
}

} // verus!
