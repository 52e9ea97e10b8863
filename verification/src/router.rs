//! The router: which listeners an event reaches, and in what order.
//!
//! The router keeps the interface tree as a parent link for each node, the key
//! context that a node declares, the listeners registered on each node, the
//! table of key bindings, and which node holds keyboard focus.
//!
//! A keyboard event starts at the focused node, a pointer event at the node
//! that hit-testing found under it. From there the event travels outwards,
//! node by node, to the root; on each node the listeners for that kind of
//! event are called in the order in which they were registered. A key press
//! that resolves to a binding also brings about the bound action, which
//! travels the same way, starting at the node whose context the binding is
//! scoped to, and reaches the listeners registered for that action.

use crate::events::{EventKind, InputEvent};
use crate::focus::{FocusEvent, FocusHandle, NodeId};
use crate::keymap::{
    installed,
    label_view,
    refused,
    resolve,
    resolve_scoped,
    specs_view,
    BindingSpec,
    KeyBindingView,
    Keymap,
    MalformedBinding,
    Resolution,
};
use crate::keystroke::Keystroke;
use crate::pass::{ClaimPolicy, DispatchPass, Invocation, ListenerId, PassView};
use vstd::prelude::*;

verus! {

/// A node of the interface tree, as the router keeps it.
#[derive(Clone, Debug)]
pub struct Node {
    pub parent: Option<NodeId>,
    pub key_context: Option<String>,
}

/// The mathematical value of a [`Node`].
pub struct NodeView {
    pub parent: Option<NodeId>,
    pub key_context: Option<Seq<char>>,
}

impl View for Node {
    type V = NodeView;

    open spec fn view(&self) -> NodeView {
        NodeView { parent: self.parent, key_context: label_view(self.key_context) }
    }
}

/// What a listener waits for.
#[derive(Clone, Debug, PartialEq, Eq)]
pub enum Trigger {
    /// Events of one kind.
    Event(EventKind),
    /// The action of this name.
    Action(String),
}

/// The mathematical value of a [`Trigger`].
pub enum TriggerView {
    Event(EventKind),
    Action(Seq<char>),
}

impl View for Trigger {
    type V = TriggerView;

    open spec fn view(&self) -> TriggerView {
        match *self {
            Trigger::Event(kind) => TriggerView::Event(kind),
            Trigger::Action(name) => TriggerView::Action(name@),
        }
    }
}

impl Trigger {
    /// Whether this and `other` wait for the same thing.
    pub fn same(&self, other: &Trigger) -> (r: bool)
        ensures
            r == (self@ == other@),
    {
        match (self, other) {
            (Trigger::Event(mine), Trigger::Event(theirs)) => *mine == *theirs,
            (Trigger::Action(mine), Trigger::Action(theirs)) => *mine == *theirs,
            _ => false,
        }
    }
}

/// A registered listener: the node it is scoped to and what it waits for.
#[derive(Clone, Debug)]
pub struct Listener {
    pub node: NodeId,
    pub trigger: Trigger,
}

/// The mathematical value of a [`Listener`].
pub struct ListenerView {
    pub node: NodeId,
    pub trigger: TriggerView,
}

impl View for Listener {
    type V = ListenerView;

    open spec fn view(&self) -> ListenerView {
        ListenerView { node: self.node, trigger: self.trigger@ }
    }
}

/// The mathematical value of a [`Router`].
pub struct RouterView {
    /// The nodes, by identity.
    pub nodes: Seq<NodeView>,
    /// The listeners, by identity.
    pub listeners: Seq<ListenerView>,
    /// The key bindings, in the order in which they were installed.
    pub bindings: Seq<KeyBindingView>,
    /// The node that holds keyboard focus.
    pub focused: Option<NodeId>,
    pub policy: ClaimPolicy,
}

impl RouterView {
    /// Whether `node` is a node of this router.
    pub open spec fn knows(self, node: NodeId) -> bool {
        node.0 < self.nodes.len()
    }

    /// Whether the router is in order: every parent was declared before its
    /// child, every listener stands on a known node, so does the focus, and
    /// the identities of nodes and listeners fit their type.
    pub open spec fn wf(self) -> bool {
        &&& self.nodes.len() <= usize::MAX
        &&& self.listeners.len() <= usize::MAX
        &&& forall|i: int|
            0 <= i < self.nodes.len() ==> match (#[trigger] self.nodes[i]).parent {
                Some(parent) => parent.0 < i,
                None => true,
            }
        &&& forall|l: int|
            0 <= l < self.listeners.len() ==> self.knows((#[trigger] self.listeners[l]).node)
        &&& match self.focused {
            Some(node) => self.knows(node),
            None => true,
        }
    }

    /// The way from `node` out to the root: `node`, its parent, the parent of
    /// that, and so on. Empty for a node that the router does not know.
    pub open spec fn chain(self, node: NodeId) -> Seq<NodeId>
        decreases node.0,
    {
        if !self.knows(node) {
            Seq::empty()
        } else {
            match self.nodes[node.0 as int].parent {
                Some(parent) => if parent.0 < node.0 {
                    seq![node] + self.chain(parent)
                } else {
                    seq![node]
                },
                None => seq![node],
            }
        }
    }

    /// The key contexts declared along `chain`, one entry for each node.
    pub open spec fn contexts(self, chain: Seq<NodeId>) -> Seq<Option<Seq<char>>> {
        Seq::new(
            chain.len(),
            |i: int|
                if self.knows(chain[i]) {
                    self.nodes[chain[i].0 as int].key_context
                } else {
                    None
                },
        )
    }

    /// Whether the listener `listener` stands on `node` and waits for
    /// `trigger`.
    pub open spec fn waits(self, listener: int, node: NodeId, trigger: TriggerView) -> bool {
        &&& 0 <= listener < self.listeners.len()
        &&& self.listeners[listener].node == node
        &&& self.listeners[listener].trigger == trigger
    }

    /// The calls due on `node` for `trigger`, looking only at the first `upto`
    /// listeners: one for each of them that stands on `node` and waits for
    /// `trigger`, in the order of registration.
    pub open spec fn heard(self, node: NodeId, trigger: TriggerView, upto: int) -> Seq<Invocation>
        decreases upto,
    {
        if upto <= 0 || upto > self.listeners.len() {
            Seq::empty()
        } else {
            let before = self.heard(node, trigger, upto - 1);
            let listener = self.listeners[upto - 1];
            if listener.node == node && listener.trigger == trigger {
                before.push(Invocation { listener: ListenerId((upto - 1) as usize), node })
            } else {
                before
            }
        }
    }

    /// The calls due for `trigger` along `chain`: node by node in the order of
    /// the chain, and on each node in the order of registration.
    pub open spec fn deliveries(self, chain: Seq<NodeId>, trigger: TriggerView) -> Seq<Invocation>
        decreases chain.len(),
    {
        if chain.len() == 0 {
            Seq::empty()
        } else {
            self.deliveries(chain.drop_last(), trigger) + self.heard(
                chain.last(),
                trigger,
                self.listeners.len() as int,
            )
        }
    }

    /// The node at which an event of kind `kind` starts: the focused node for
    /// a keyboard event, the node that was hit for a pointer event.
    pub open spec fn target(self, kind: EventKind, hit: Option<NodeId>) -> Option<NodeId> {
        let start = if kind.spec_is_keyboard() {
            self.focused
        } else {
            hit
        };
        match start {
            Some(node) => if self.knows(node) {
                Some(node)
            } else {
                None
            },
            None => None,
        }
    }

    /// The binding that `event` resolves to on its way along `chain`. Only a
    /// key press resolves to one.
    pub open spec fn bound(self, event: InputEvent, chain: Seq<NodeId>) -> Option<Resolution> {
        match event {
            InputEvent::KeyDown(press) => resolve(
                self.bindings,
                press.keystroke@,
                self.contexts(chain),
            ),
            _ => None,
        }
    }

    /// The pass that dispatching `event` begins.
    pub open spec fn begin(self, event: InputEvent, hit: Option<NodeId>) -> PassView {
        match self.target(event.spec_kind(), hit) {
            None => PassView::idle(self.policy),
            Some(node) => {
                let chain = self.chain(node);
                let events = self.deliveries(chain, TriggerView::Event(event.spec_kind()));
                match self.bound(event, chain) {
                    Some(found) => {
                        let name = self.bindings[found.binding].action;
                        PassView {
                            events,
                            actions: self.deliveries(
                                chain.skip(found.depth),
                                TriggerView::Action(name),
                            ),
                            action: Some(name),
                            last: None,
                            policy: self.policy,
                            failures: Seq::empty(),
                        }
                    },
                    None => PassView { events, ..PassView::idle(self.policy) },
                }
            },
        }
    }
}

/// The interface tree with its listeners, the key bindings and the focus.
#[derive(Clone, Debug)]
pub struct Router {
    nodes: Vec<Node>,
    listeners: Vec<Listener>,
    keymap: Keymap,
    focused: Option<NodeId>,
    policy: ClaimPolicy,
}

impl View for Router {
    type V = RouterView;

    closed spec fn view(&self) -> RouterView {
        RouterView {
            nodes: self.nodes@.map_values(|node: Node| node@),
            listeners: self.listeners@.map_values(|listener: Listener| listener@),
            bindings: self.keymap@,
            focused: self.focused,
            policy: self.policy,
        }
    }
}

impl Router {
    /// A router with no node, no listener, no binding and no focus.
    pub fn new(policy: ClaimPolicy) -> (r: Router)
        ensures
            r@ == (RouterView {
                nodes: Seq::empty(),
                listeners: Seq::empty(),
                bindings: Seq::empty(),
                focused: None,
                policy,
            }),
            r@.wf(),
    {
        let router = Router {
            nodes: Vec::new(),
            listeners: Vec::new(),
            keymap: Keymap::new(),
            focused: None,
            policy,
        };
        proof {
            assert(router@.nodes =~= Seq::<NodeView>::empty());
            assert(router@.listeners =~= Seq::<ListenerView>::empty());
        }
        router
    }

    /// Declares a node under `parent`, or a root where `parent` is `None`.
    ///
    /// Returns the identity of the new node, or `None`, with nothing changed,
    /// where `parent` is not a node of this router.
    pub fn add_node(&mut self, parent: Option<NodeId>, key_context: Option<String>) -> (r: Option<
        NodeId,
    >)
        ensures
            match r {
                Some(node) => {
                    &&& parent matches Some(known) ==> old(self)@.knows(known)
                    &&& node.0 == old(self)@.nodes.len()
                    &&& final(self)@ == (RouterView {
                        nodes: old(self)@.nodes.push(
                            NodeView { parent, key_context: label_view(key_context) },
                        ),
                        ..old(self)@
                    })
                },
                None => {
                    &&& parent matches Some(unknown) && !old(self)@.knows(unknown)
                    &&& final(self)@ == old(self)@
                },
            },
            old(self)@.wf() ==> final(self)@.wf(),
    {
        match parent {
            Some(given) => {
                if given.0 >= self.nodes.len() {
                    return None;
                }
            },
            None => {},
        }
        let node = NodeId(self.nodes.len());
        let ghost added = NodeView { parent, key_context: label_view(key_context) };
        self.nodes.push(Node { parent, key_context });
        proof {
            assert(self@.nodes =~= old(self)@.nodes.push(added));
            assert(self@.nodes.len() == self.nodes.len());
            if old(self)@.wf() {
                assert forall|i: int| 0 <= i < self@.nodes.len() implies match (
                #[trigger] self@.nodes[i]).parent {
                    Some(above) => above.0 < i,
                    None => true,
                } by {
                    if i < old(self)@.nodes.len() {
                        assert(self@.nodes[i] == old(self)@.nodes[i]);
                    }
                }
                assert forall|l: int| 0 <= l < self@.listeners.len() implies self@.knows(
                    (#[trigger] self@.listeners[l]).node,
                ) by {
                    assert(old(self)@.knows(old(self)@.listeners[l].node));
                }
            }
        }
        Some(node)
    }

    /// Registers a listener on `node` for `trigger`.
    ///
    /// Returns the identity of the listener, or `None`, with nothing changed,
    /// where `node` is not a node of this router.
    pub fn listen(&mut self, node: NodeId, trigger: Trigger) -> (r: Option<ListenerId>)
        ensures
            match r {
                Some(listener) => {
                    &&& old(self)@.knows(node)
                    &&& listener.0 == old(self)@.listeners.len()
                    &&& final(self)@ == (RouterView {
                        listeners: old(self)@.listeners.push(
                            ListenerView { node, trigger: trigger@ },
                        ),
                        ..old(self)@
                    })
                },
                None => !old(self)@.knows(node) && final(self)@ == old(self)@,
            },
            old(self)@.wf() ==> final(self)@.wf(),
    {
        if node.0 >= self.nodes.len() {
            return None;
        }
        let listener = ListenerId(self.listeners.len());
        let ghost added = ListenerView { node, trigger: trigger@ };
        self.listeners.push(Listener { node, trigger });
        proof {
            assert(self@.listeners =~= old(self)@.listeners.push(added));
            assert(self@.listeners.len() == self.listeners.len());
            if old(self)@.wf() {
                assert forall|l: int| 0 <= l < self@.listeners.len() implies self@.knows(
                    (#[trigger] self@.listeners[l]).node,
                ) by {
                    if l < old(self)@.listeners.len() {
                        assert(self@.listeners[l] == old(self)@.listeners[l]);
                    }
                }
            }
        }
        Some(listener)
    }

    /// Registers a listener on `node` for events of kind `kind`.
    pub fn on_event(&mut self, node: NodeId, kind: EventKind) -> (r: Option<ListenerId>)
        ensures
            match r {
                Some(listener) => {
                    &&& old(self)@.knows(node)
                    &&& listener.0 == old(self)@.listeners.len()
                    &&& final(self)@ == (RouterView {
                        listeners: old(self)@.listeners.push(
                            ListenerView { node, trigger: TriggerView::Event(kind) },
                        ),
                        ..old(self)@
                    })
                },
                None => !old(self)@.knows(node) && final(self)@ == old(self)@,
            },
            old(self)@.wf() ==> final(self)@.wf(),
    {
        self.listen(node, Trigger::Event(kind))
    }

    /// Registers a listener on `node` for the action named `action`.
    pub fn on_action(&mut self, node: NodeId, action: String) -> (r: Option<ListenerId>)
        ensures
            match r {
                Some(listener) => {
                    &&& old(self)@.knows(node)
                    &&& listener.0 == old(self)@.listeners.len()
                    &&& final(self)@ == (RouterView {
                        listeners: old(self)@.listeners.push(
                            ListenerView { node, trigger: TriggerView::Action(action@) },
                        ),
                        ..old(self)@
                    })
                },
                None => !old(self)@.knows(node) && final(self)@ == old(self)@,
            },
            old(self)@.wf() ==> final(self)@.wf(),
    {
        self.listen(node, Trigger::Action(action))
    }

    /// Installs a batch of written bindings after those already installed.
    ///
    /// A binding whose keystroke cannot be read is left out and reported; the
    /// others of the batch are installed all the same.
    pub fn bind_keys(&mut self, specs: &Vec<BindingSpec>) -> (r: Vec<MalformedBinding>)
        ensures
            final(self)@ == (RouterView {
                bindings: old(self)@.bindings + installed(specs_view(specs@)),
                ..old(self)@
            }),
            r@ == refused(specs_view(specs@)),
            old(self)@.wf() ==> final(self)@.wf(),
    {
        self.keymap.bind_keys(specs)
    }

    /// The node with the identity `node`.
    pub fn node(&self, node: NodeId) -> (r: Option<&Node>)
        ensures
            match r {
                Some(found) => self@.knows(node) && found@ == self@.nodes[node.0 as int],
                None => !self@.knows(node),
            },
    {
        if node.0 < self.nodes.len() {
            Some(&self.nodes[node.0])
        } else {
            None
        }
    }

    /// The listener with the identity `listener`.
    pub fn listener(&self, listener: ListenerId) -> (r: Option<&Listener>)
        ensures
            match r {
                Some(found) => listener.0 < self@.listeners.len() && found@
                    == self@.listeners[listener.0 as int],
                None => listener.0 >= self@.listeners.len(),
            },
    {
        if listener.0 < self.listeners.len() {
            Some(&self.listeners[listener.0])
        } else {
            None
        }
    }

    /// The table of key bindings.
    pub fn keymap(&self) -> (r: &Keymap)
        ensures
            r@ == self@.bindings,
    {
        &self.keymap
    }

    /// The handle of the node that holds keyboard focus.
    pub fn focused(&self) -> (r: Option<FocusHandle>)
        ensures
            r == match self@.focused {
                Some(node) => Some(FocusHandle { node }),
                None => None,
            },
    {
        match self.focused {
            Some(node) => Some(FocusHandle { node }),
            None => None,
        }
    }

    /// Moves keyboard focus to the node of `handle`.
    ///
    /// Returns the transition, or `None`, with nothing changed, where that
    /// node is not a node of this router or holds focus already.
    pub fn focus(&mut self, handle: FocusHandle) -> (r: Option<FocusEvent>)
        ensures
            match r {
                Some(event) => {
                    &&& old(self)@.knows(handle.node)
                    &&& old(self)@.focused != Some(handle.node)
                    &&& event.focused == Some(handle)
                    &&& event.blurred == match old(self)@.focused {
                        Some(node) => Some(FocusHandle { node }),
                        None => None,
                    }
                    &&& final(self)@ == (RouterView {
                        focused: Some(handle.node),
                        ..old(self)@
                    })
                },
                None => {
                    &&& !old(self)@.knows(handle.node) || old(self)@.focused == Some(
                        handle.node,
                    )
                    &&& final(self)@ == old(self)@
                },
            },
            old(self)@.wf() ==> final(self)@.wf(),
    {
        if handle.node.0 >= self.nodes.len() {
            return None;
        }
        let blurred = self.focused();
        match blurred {
            Some(before) => {
                if before.node == handle.node {
                    return None;
                }
            },
            None => {},
        }
        self.focused = Some(handle.node);
        Some(FocusEvent { blurred, focused: Some(handle) })
    }

    /// Takes keyboard focus away from the node that holds it.
    ///
    /// Returns the transition, or `None` where no node held focus.
    pub fn blur(&mut self) -> (r: Option<FocusEvent>)
        ensures
            r == match old(self)@.focused {
                Some(node) => Some(
                    FocusEvent { blurred: Some(FocusHandle { node }), focused: None },
                ),
                None => None,
            },
            final(self)@ == (RouterView { focused: None, ..old(self)@ }),
            old(self)@.wf() ==> final(self)@.wf(),
    {
        let blurred = self.focused();
        self.focused = None;
        match blurred {
            Some(before) => Some(FocusEvent { blurred: Some(before), focused: None }),
            None => None,
        }
    }

    /// The way from `node` out to the root, `node` first.
    pub fn ancestors(&self, node: NodeId) -> (r: Vec<NodeId>)
        ensures
            r@ == self@.chain(node),
    {
        let mut way: Vec<NodeId> = Vec::new();
        if node.0 >= self.nodes.len() {
            return way;
        }
        let mut current = node;
        loop
            invariant_except_break
                way@ + self@.chain(current) == self@.chain(node),
            invariant
                current.0 < self.nodes.len(),
            ensures
                way@ == self@.chain(node),
            decreases current.0,
        {
            let ghost before = way@;
            way.push(current);
            proof {
                assert(self@.nodes[current.0 as int] == self.nodes@[current.0 as int]@);
            }
            match self.nodes[current.0].parent {
                Some(parent) => {
                    if parent.0 < current.0 {
                        proof {
                            assert(way@ + self@.chain(parent) =~= before + self@.chain(current));
                        }
                        current = parent;
                    } else {
                        proof {
                            assert(way@ =~= before + self@.chain(current));
                        }
                        break ;
                    }
                },
                None => {
                    proof {
                        assert(way@ =~= before + self@.chain(current));
                    }
                    break ;
                },
            }
        }
        way
    }

    /// The calls due for `trigger` along `chain` from position `from` on.
    fn deliveries(&self, chain: &Vec<NodeId>, from: usize, trigger: &Trigger) -> (r: Vec<
        Invocation,
    >)
        requires
            from <= chain.len(),
        ensures
            r@ == self@.deliveries(chain@.skip(from as int), trigger@),
    {
        let mut due: Vec<Invocation> = Vec::new();
        let mut i: usize = from;
        proof {
            assert(chain@.subrange(from as int, from as int) =~= Seq::<NodeId>::empty());
        }
        while i < chain.len()
            invariant
                from <= i <= chain.len(),
                due@ == self@.deliveries(chain@.subrange(from as int, i as int), trigger@),
            decreases chain.len() - i,
        {
            let node = chain[i];
            let ghost before = due@;
            let mut l: usize = 0;
            while l < self.listeners.len()
                invariant
                    l <= self.listeners.len(),
                    due@ == before + self@.heard(node, trigger@, l as int),
                decreases self.listeners.len() - l,
            {
                proof {
                    assert(self@.listeners[l as int] == self.listeners@[l as int]@);
                }
                let ghost so_far = due@;
                if self.listeners[l].node == node && self.listeners[l].trigger.same(trigger) {
                    due.push(Invocation { listener: ListenerId(l), node });
                }
                l += 1;
                proof {
                    assert(due@ =~= before + self@.heard(node, trigger@, l as int));
                }
            }
            proof {
                let longer = chain@.subrange(from as int, i + 1);
                assert(longer.drop_last() =~= chain@.subrange(from as int, i as int));
                assert(longer.last() == node);
            }
            i += 1;
        }
        proof {
            assert(chain@.subrange(from as int, chain.len() as int) =~= chain@.skip(from as int));
        }
        due
    }

    /// The binding that `keystroke` resolves to on its way along `chain`.
    fn resolve(&self, keystroke: &Keystroke, chain: &Vec<NodeId>) -> (r: Option<(usize, usize)>)
        ensures
            match r {
                Some((depth, binding)) => {
                    &&& resolve(self@.bindings, keystroke@, self@.contexts(chain@)) == Some(
                        Resolution { depth: depth as int, binding: binding as int },
                    )
                    &&& depth < chain.len()
                    &&& binding < self@.bindings.len()
                },
                None => resolve(self@.bindings, keystroke@, self@.contexts(chain@)) is None,
            },
    {
        let ghost contexts = self@.contexts(chain@);
        let mut depth: usize = 0;
        while depth < chain.len()
            invariant
                depth <= chain.len(),
                contexts == self@.contexts(chain@),
                resolve_scoped(self@.bindings, keystroke@, contexts, 0) == resolve_scoped(
                    self@.bindings,
                    keystroke@,
                    contexts,
                    depth as int,
                ),
            decreases chain.len() - depth,
        {
            let node = chain[depth];
            if node.0 < self.nodes.len() {
                proof {
                    assert(self@.nodes[node.0 as int] == self.nodes@[node.0 as int]@);
                }
                match &self.nodes[node.0].key_context {
                    Some(declared) => {
                        match self.keymap.latest_under(keystroke, declared) {
                            Some(binding) => {
                                proof {
                                    crate::keymap::lemma_latest_under(
                                        self@.bindings,
                                        keystroke@,
                                        declared@,
                                    );
                                }
                                return Some((depth, binding));
                            },
                            None => {},
                        }
                    },
                    None => {},
                }
            }
            depth += 1;
        }
        if chain.len() == 0 {
            return None;
        }
        match self.keymap.latest_anywhere(keystroke) {
            Some(binding) => {
                proof {
                    crate::keymap::lemma_latest_anywhere(self@.bindings, keystroke@);
                }
                Some((0, binding))
            },
            None => None,
        }
    }

    /// Begins the dispatch of `event`.
    ///
    /// `hit` is the innermost node under the event's position, as hit-testing
    /// found it; it is not looked at for a keyboard event. The pass that comes
    /// back holds every call that the event is due to bring about. Where a
    /// keyboard event finds no node focused, or a pointer event no node hit,
    /// nothing is due.
    pub fn dispatch(&self, event: &InputEvent, hit: Option<NodeId>) -> (r: DispatchPass)
        ensures
            r@ == self@.begin(*event, hit),
    {
        let kind = event.kind();
        let start = if kind.is_keyboard() {
            self.focused
        } else {
            hit
        };
        let node = match start {
            Some(node) => node,
            None => {
                return DispatchPass::plan(Vec::new(), Vec::new(), None, self.policy);
            },
        };
        if node.0 >= self.nodes.len() {
            return DispatchPass::plan(Vec::new(), Vec::new(), None, self.policy);
        }
        let chain = self.ancestors(node);
        proof {
            assert(chain@.skip(0) =~= chain@);
        }
        let events = self.deliveries(&chain, 0, &Trigger::Event(kind));
        let found = match event {
            InputEvent::KeyDown(press) => self.resolve(&press.keystroke, &chain),
            _ => None,
        };
        match found {
            Some((depth, binding)) => {
                match self.keymap.get(binding) {
                    Some(bound) => {
                        let name = bound.action.clone();
                        let trigger = Trigger::Action(name);
                        let actions = self.deliveries(&chain, depth, &trigger);
                        let action = match trigger {
                            Trigger::Action(name) => Some(name),
                            Trigger::Event(_) => None,
                        };
                        DispatchPass::plan(events, actions, action, self.policy)
                    },
                    None => DispatchPass::plan(events, Vec::new(), None, self.policy),
                }
            },
            None => DispatchPass::plan(events, Vec::new(), None, self.policy),
        }
    }
}

/// In a router that is in order, the way out from a known node starts at
/// that node, stays among the known nodes, steps from each node to its
/// parent, passes no node twice, and ends at a root.
pub proof fn lemma_chain(router: RouterView, node: NodeId)
    requires
        router.wf(),
        router.knows(node),
    ensures
        router.chain(node).len() >= 1,
        router.chain(node)[0] == node,
        forall|i: int|
            0 <= i < router.chain(node).len() ==> router.knows(#[trigger] router.chain(node)[i]),
        forall|i: int|
            0 <= i < router.chain(node).len() - 1 ==> router.nodes[(#[trigger] router.chain(
                node,
            )[i]).0 as int].parent == Some(router.chain(node)[i + 1]),
        forall|i: int, j: int|
            0 <= i < j < router.chain(node).len() ==> (#[trigger] router.chain(node)[j]).0 < (
            #[trigger] router.chain(node)[i]).0,
        router.nodes[router.chain(node).last().0 as int].parent is None,
        router.chain(node).no_duplicates(),
    decreases node.0,
{
    let chain = router.chain(node);
    match router.nodes[node.0 as int].parent {
        Some(parent) => {
            assert(parent.0 < node.0);
            lemma_chain(router, parent);
            let rest = router.chain(parent);
            assert(chain == seq![node] + rest);
            assert forall|i: int| 0 <= i < chain.len() implies router.knows(
                #[trigger] chain[i],
            ) by {
                if i > 0 {
                    assert(chain[i] == rest[i - 1]);
                }
            }
            assert forall|i: int| 0 <= i < chain.len() - 1 implies router.nodes[(
            #[trigger] chain[i]).0 as int].parent == Some(chain[i + 1]) by {
                if i > 0 {
                    assert(chain[i] == rest[i - 1]);
                    assert(chain[i + 1] == rest[i]);
                } else {
                    assert(chain[1] == rest[0]);
                }
            }
            assert forall|i: int, j: int| 0 <= i < j < chain.len() implies (
            #[trigger] chain[j]).0 < (#[trigger] chain[i]).0 by {
                assert(chain[j] == rest[j - 1]);
                if i > 0 {
                    assert(chain[i] == rest[i - 1]);
                } else if j > 1 {
                    assert(rest[j - 1].0 < rest[0].0);
                }
            }
            assert(chain.last() == rest.last());
        },
        None => {
            assert(chain == seq![node]);
        },
    }
}

/// The calls due on a node are those of the listeners that stand on it and
/// wait for the trigger, each once, in the order of registration.
pub proof fn lemma_heard(router: RouterView, node: NodeId, trigger: TriggerView, upto: int)
    requires
        0 <= upto <= router.listeners.len() <= usize::MAX,
    ensures
        forall|i: int|
            0 <= i < router.heard(node, trigger, upto).len() ==> {
                let call = #[trigger] router.heard(node, trigger, upto)[i];
                &&& call.node == node
                &&& call.listener.0 < upto
                &&& router.waits(call.listener.0 as int, node, trigger)
            },
        forall|i: int, j: int|
            0 <= i < j < router.heard(node, trigger, upto).len() ==> (#[trigger] router.heard(
                node,
                trigger,
                upto,
            )[i]).listener.0 < (#[trigger] router.heard(node, trigger, upto)[j]).listener.0,
        forall|listener: int|
            0 <= listener < upto && #[trigger] router.waits(listener, node, trigger)
                ==> router.heard(node, trigger, upto).contains(
                Invocation { listener: ListenerId(listener as usize), node },
            ),
    decreases upto,
{
    if upto > 0 {
        lemma_heard(router, node, trigger, upto - 1);
        let before = router.heard(node, trigger, upto - 1);
        let now = router.heard(node, trigger, upto);
        let added = Invocation { listener: ListenerId((upto - 1) as usize), node };
        assert forall|listener: int|
            0 <= listener < upto && #[trigger] router.waits(
                listener,
                node,
                trigger,
            ) implies now.contains(
            Invocation { listener: ListenerId(listener as usize), node },
        ) by {
            let wanted = Invocation { listener: ListenerId(listener as usize), node };
            if listener < upto - 1 {
                let k = choose|k: int| 0 <= k < before.len() && before[k] == wanted;
                assert(now[k] == wanted);
            } else {
                assert(now == before.push(added));
                assert(now[before.len() as int] == wanted);
            }
        }
    }
}

/// The calls due along a chain are those of the listeners that stand on a
/// node of the chain and wait for the trigger; where the chain passes no node
/// twice, each of them is called once.
pub proof fn lemma_deliveries(router: RouterView, chain: Seq<NodeId>, trigger: TriggerView)
    requires
        router.listeners.len() <= usize::MAX,
    ensures
        forall|call: Invocation| #[trigger]
            router.deliveries(chain, trigger).contains(call) <==> chain.contains(call.node)
                && router.waits(call.listener.0 as int, call.node, trigger),
        chain.no_duplicates() ==> router.deliveries(chain, trigger).no_duplicates(),
    decreases chain.len(),
{
    let due = router.deliveries(chain, trigger);
    if chain.len() > 0 {
        let inner = chain.drop_last();
        let outermost = chain.last();
        let before = router.deliveries(inner, trigger);
        let here = router.heard(outermost, trigger, router.listeners.len() as int);
        lemma_deliveries(router, inner, trigger);
        lemma_heard(router, outermost, trigger, router.listeners.len() as int);
        assert(due == before + here);
        assert forall|call: Invocation| #[trigger] due.contains(call) implies chain.contains(
            call.node,
        ) && router.waits(call.listener.0 as int, call.node, trigger) by {
            let k = choose|k: int| 0 <= k < due.len() && due[k] == call;
            if k < before.len() {
                assert(before[k] == call);
                assert(before.contains(call));
                let at = choose|at: int| 0 <= at < inner.len() && inner[at] == call.node;
                assert(chain[at] == call.node);
            } else {
                assert(here[k - before.len()] == call);
                assert(chain[chain.len() - 1] == call.node);
            }
        }
        assert forall|call: Invocation|
            chain.contains(call.node) && router.waits(
                call.listener.0 as int,
                call.node,
                trigger,
            ) implies #[trigger] due.contains(call) by {
            if call.node == outermost {
                let wanted = Invocation {
                    listener: ListenerId(call.listener.0 as int as usize),
                    node: outermost,
                };
                assert(wanted == call);
                let k = choose|k: int| 0 <= k < here.len() && here[k] == call;
                assert(due[before.len() + k] == call);
            } else {
                let at = choose|at: int| 0 <= at < chain.len() && chain[at] == call.node;
                assert(inner[at] == call.node);
                assert(inner.contains(call.node));
                assert(before.contains(call));
                let k = choose|k: int| 0 <= k < before.len() && before[k] == call;
                assert(due[k] == call);
            }
        }
        if chain.no_duplicates() {
            assert(inner.no_duplicates()) by {
                assert forall|i: int, j: int|
                    0 <= i < inner.len() && 0 <= j < inner.len() && i != j implies inner[i]
                    != inner[j] by {
                    assert(chain[i] != chain[j]);
                }
            }
            assert forall|i: int, j: int|
                0 <= i < due.len() && 0 <= j < due.len() && i != j implies due[i] != due[j] by {
                let first = if i < j {
                    i
                } else {
                    j
                };
                let second = if i < j {
                    j
                } else {
                    i
                };
                if second < before.len() {
                    assert(before[first] != before[second]);
                } else if first >= before.len() {
                    assert(here[first - before.len()].listener.0 < here[second
                        - before.len()].listener.0);
                } else {
                    assert(before.contains(before[first]));
                    assert(inner.contains(due[first].node));
                    let at = choose|at: int| 0 <= at < inner.len() && inner[at] == due[first].node;
                    assert(chain[at] != chain[chain.len() - 1]);
                    assert(here[second - before.len()].node == outermost);
                }
            }
        }
    } else {
        assert(due =~= Seq::<Invocation>::empty());
    }
}

/// In a router that is in order, the pass that an event begins holds, with
/// the event itself, one call for each listener that stands on the way out
/// from the node at which the event starts and waits for events of its kind,
/// and no other call. Where a binding applies, the pass holds, with the bound
/// action, one call for each listener that stands on the way out from the
/// node to whose context the binding is scoped and waits for that action, and
/// no other call.
pub proof fn lemma_dispatch_reaches(
    router: RouterView,
    event: InputEvent,
    hit: Option<NodeId>,
    node: NodeId,
)
    requires
        router.wf(),
        router.target(event.spec_kind(), hit) == Some(node),
    ensures
        router.begin(event, hit).events.no_duplicates(),
        router.begin(event, hit).actions.no_duplicates(),
        forall|call: Invocation| #[trigger]
            router.begin(event, hit).events.contains(call) <==> router.chain(node).contains(
                call.node,
            ) && router.waits(
                call.listener.0 as int,
                call.node,
                TriggerView::Event(event.spec_kind()),
            ),
        match router.bound(event, router.chain(node)) {
            Some(found) => {
                &&& 0 <= found.depth < router.chain(node).len()
                &&& 0 <= found.binding < router.bindings.len()
                &&& router.begin(event, hit).action == Some(router.bindings[found.binding].action)
                &&& forall|call: Invocation| #[trigger]
                    router.begin(event, hit).actions.contains(call) <==> router.chain(node).skip(
                        found.depth,
                    ).contains(call.node) && router.waits(
                        call.listener.0 as int,
                        call.node,
                        TriggerView::Action(router.bindings[found.binding].action),
                    )
            },
            None => router.begin(event, hit).action is None && router.begin(
                event,
                hit,
            ).actions.len() == 0,
        },
{
    let chain = router.chain(node);
    lemma_chain(router, node);
    lemma_deliveries(router, chain, TriggerView::Event(event.spec_kind()));
    match router.bound(event, chain) {
        Some(found) => {
            let keystroke = event->KeyDown_0.keystroke@;
            let contexts = router.contexts(chain);
            crate::keymap::lemma_resolve_scoped(router.bindings, keystroke, contexts, 0);
            crate::keymap::lemma_latest_anywhere(router.bindings, keystroke);
            if resolve_scoped(router.bindings, keystroke, contexts, 0) is Some {
                crate::keymap::lemma_latest_under(
                    router.bindings,
                    keystroke,
                    contexts[found.depth]->0,
                );
            }
            let outer = chain.skip(found.depth);
            assert forall|i: int, j: int|
                0 <= i < outer.len() && 0 <= j < outer.len() && i != j implies outer[i]
                != outer[j] by {
                assert(chain[i + found.depth] != chain[j + found.depth]);
            }
            lemma_deliveries(
                router,
                outer,
                TriggerView::Action(router.bindings[found.binding].action),
            );
        },
        None => {},
    }
}

/// Dispatch reads of an event only its kind and, for a key press, its
/// keystroke; and it changes nothing. So dispatching an event again, or an
/// event that agrees with it in these, begins a pass with the same calls in
/// the same order, and the two passes run alike under the same answers.
pub proof fn lemma_dispatch_is_repeatable(
    router: RouterView,
    first: InputEvent,
    second: InputEvent,
    hit: Option<NodeId>,
    outcomes: Seq<crate::pass::ListenerOutcome>,
)
    requires
        first.spec_kind() == second.spec_kind(),
        first is KeyDown ==> first->KeyDown_0.keystroke@ == second->KeyDown_0.keystroke@,
    ensures
        router.begin(first, hit) == router.begin(second, hit),
        router.begin(first, hit).run(outcomes) == router.begin(second, hit).run(outcomes),
{
}

/// An event that finds no node to start at is dropped: a keyboard event while
/// nothing is focused, a pointer event that hit no node.
pub proof fn lemma_no_target(router: RouterView, event: InputEvent, hit: Option<NodeId>)
    requires
        if event.spec_kind().spec_is_keyboard() {
            router.focused is None
        } else {
            hit is None
        },
    ensures
        router.begin(event, hit) == PassView::idle(router.policy),
        router.begin(event, hit).upcoming() is None,
{
}

/// An event to which no binding applies brings about no action: it reaches
/// the listeners for events of its kind and no others. That is so for every
/// event but a key press, and for a key press whose keystroke no installed
/// binding is for.
pub proof fn lemma_unbound_event(router: RouterView, event: InputEvent, hit: Option<NodeId>)
    requires
        event is KeyDown ==> forall|index: int|
            0 <= index < router.bindings.len() ==> (#[trigger] router.bindings[index]).keystroke
                != event->KeyDown_0.keystroke@,
    ensures
        router.begin(event, hit).action is None,
        router.begin(event, hit).actions.len() == 0,
{
    match router.target(event.spec_kind(), hit) {
        Some(node) => {
            if event is KeyDown {
                crate::keymap::lemma_resolve_none(
                    router.bindings,
                    event->KeyDown_0.keystroke@,
                    router.contexts(router.chain(node)),
                );
            }
        },
        None => {},
    }
}

} // verus!
