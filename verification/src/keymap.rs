//! The table of key bindings, and which binding a keystroke resolves to.
//!
//! A binding ties a keystroke to a named action, either everywhere or only
//! under nodes that declare a given key context. For a keystroke pressed while
//! some node has focus, the contexts declared along the way from that node out
//! to the root decide which binding wins: a binding scoped to a context
//! declared nearer to the focused node beats one scoped to a context declared
//! further out, any scoped binding beats every unscoped one, and among
//! bindings that are otherwise level the one installed last wins.

use crate::keystroke::{parse_spec, Keystroke, KeystrokeError, KeystrokeView};
use vstd::prelude::*;

verus! {

/// The characters of an optional label.
pub open spec fn label_view(label: Option<String>) -> Option<Seq<char>> {
    match label {
        Some(text) => Some(text@),
        None => None,
    }
}

/// A copy of an optional label.
fn clone_label(label: &Option<String>) -> (r: Option<String>)
    ensures
        label_view(r) == label_view(*label),
{
    match label {
        Some(text) => Some(text.clone()),
        None => None,
    }
}

/// A binding as it is written in configuration: the keystroke still as text.
#[derive(Clone, Debug, PartialEq, Eq)]
pub struct BindingSpec {
    pub keystroke: String,
    pub action: String,
    pub context: Option<String>,
}

/// The mathematical value of a [`BindingSpec`].
pub struct BindingSpecView {
    pub keystroke: Seq<char>,
    pub action: Seq<char>,
    pub context: Option<Seq<char>>,
}

impl View for BindingSpec {
    type V = BindingSpecView;

    open spec fn view(&self) -> BindingSpecView {
        BindingSpecView {
            keystroke: self.keystroke@,
            action: self.action@,
            context: label_view(self.context),
        }
    }
}

/// A keystroke bound to a named action, everywhere or under one key context.
#[derive(Clone, Debug, PartialEq, Eq)]
pub struct KeyBinding {
    pub keystroke: Keystroke,
    pub action: String,
    pub context: Option<String>,
}

/// The mathematical value of a [`KeyBinding`].
pub struct KeyBindingView {
    pub keystroke: KeystrokeView,
    pub action: Seq<char>,
    pub context: Option<Seq<char>>,
}

impl View for KeyBinding {
    type V = KeyBindingView;

    open spec fn view(&self) -> KeyBindingView {
        KeyBindingView {
            keystroke: self.keystroke@,
            action: self.action@,
            context: label_view(self.context),
        }
    }
}

impl BindingSpecView {
    /// The binding that this text writes, or why its keystroke cannot be
    /// read.
    pub open spec fn read(self) -> Result<KeyBindingView, KeystrokeError> {
        match parse_spec(self.keystroke) {
            Ok(keystroke) => Ok(
                KeyBindingView { keystroke, action: self.action, context: self.context },
            ),
            Err(reason) => Err(reason),
        }
    }
}

impl KeyBinding {
    /// Reads a written binding.
    pub fn load(spec: &BindingSpec) -> (r: Result<KeyBinding, KeystrokeError>)
        ensures
            match r {
                Ok(binding) => spec@.read() == Ok::<KeyBindingView, KeystrokeError>(binding@),
                Err(reason) => spec@.read() == Err::<KeyBindingView, KeystrokeError>(reason),
            },
    {
        match Keystroke::parse(spec.keystroke.as_str()) {
            Ok(keystroke) => Ok(
                KeyBinding {
                    keystroke,
                    action: spec.action.clone(),
                    context: clone_label(&spec.context),
                },
            ),
            Err(reason) => Err(reason),
        }
    }

    /// Whether this binding is for `keystroke` and scoped to the context
    /// `declared`.
    pub fn applies_under(&self, keystroke: &Keystroke, declared: &String) -> (r: bool)
        ensures
            r == self@.applies_under(keystroke@, declared@),
    {
        match &self.context {
            Some(context) => self.keystroke.matches(keystroke) && *context == *declared,
            None => false,
        }
    }

    /// Whether this binding is for `keystroke` and scoped to no context.
    pub fn applies_anywhere(&self, keystroke: &Keystroke) -> (r: bool)
        ensures
            r == self@.applies_anywhere(keystroke@),
    {
        self.context.is_none() && self.keystroke.matches(keystroke)
    }
}

impl KeyBindingView {
    /// Whether this binding is for `keystroke` and scoped to the context
    /// `declared`.
    pub open spec fn applies_under(self, keystroke: KeystrokeView, declared: Seq<char>) -> bool {
        self.keystroke == keystroke && self.context == Some(declared)
    }

    /// Whether this binding is for `keystroke` and scoped to no context.
    pub open spec fn applies_anywhere(self, keystroke: KeystrokeView) -> bool {
        self.keystroke == keystroke && self.context is None
    }
}

/// A written binding that was refused.
#[derive(Clone, Copy, Debug, PartialEq, Eq, Structural)]
pub struct MalformedBinding {
    /// Its place in the batch it came in.
    pub index: usize,
    /// Why its keystroke could not be read.
    pub reason: KeystrokeError,
}

/// What a batch of written bindings installs: the bindings among them that can
/// be read, in the order of the batch.
pub open spec fn installed(specs: Seq<BindingSpecView>) -> Seq<KeyBindingView>
    decreases specs.len(),
{
    if specs.len() == 0 {
        Seq::empty()
    } else {
        match specs.last().read() {
            Ok(binding) => installed(specs.drop_last()).push(binding),
            Err(_) => installed(specs.drop_last()),
        }
    }
}

/// What a batch of written bindings has refused: one entry for each that
/// cannot be read, with its place in the batch, in the order of the batch.
pub open spec fn refused(specs: Seq<BindingSpecView>) -> Seq<MalformedBinding>
    decreases specs.len(),
{
    if specs.len() == 0 {
        Seq::empty()
    } else {
        match specs.last().read() {
            Ok(_) => refused(specs.drop_last()),
            Err(reason) => refused(specs.drop_last()).push(
                MalformedBinding { index: (specs.len() - 1) as usize, reason },
            ),
        }
    }
}

/// The last of `bindings` that is for `keystroke` and scoped to `declared`.
pub open spec fn latest_under(
    bindings: Seq<KeyBindingView>,
    keystroke: KeystrokeView,
    declared: Seq<char>,
) -> Option<int>
    decreases bindings.len(),
{
    if bindings.len() == 0 {
        None
    } else if bindings.last().applies_under(keystroke, declared) {
        Some(bindings.len() - 1)
    } else {
        latest_under(bindings.drop_last(), keystroke, declared)
    }
}

/// The last of `bindings` that is for `keystroke` and scoped to no context.
pub open spec fn latest_anywhere(bindings: Seq<KeyBindingView>, keystroke: KeystrokeView) -> Option<
    int,
>
    decreases bindings.len(),
{
    if bindings.len() == 0 {
        None
    } else if bindings.last().applies_anywhere(keystroke) {
        Some(bindings.len() - 1)
    } else {
        latest_anywhere(bindings.drop_last(), keystroke)
    }
}

/// The binding that a keystroke resolves to, and where.
pub struct Resolution {
    /// How many steps out from the focused node the node stands on which the
    /// action is dispatched.
    pub depth: int,
    /// The index of the winning binding in the table.
    pub binding: int,
}

/// The winner among the scoped bindings, looking only at the contexts from
/// `from` steps out and further: the first step at which a context is declared
/// that some binding for `keystroke` is scoped to, and the last such binding.
pub open spec fn resolve_scoped(
    bindings: Seq<KeyBindingView>,
    keystroke: KeystrokeView,
    contexts: Seq<Option<Seq<char>>>,
    from: int,
) -> Option<Resolution>
    decreases contexts.len() - from,
{
    if from < 0 || from >= contexts.len() {
        None
    } else {
        let here = match contexts[from] {
            Some(declared) => latest_under(bindings, keystroke, declared),
            None => None,
        };
        match here {
            Some(binding) => Some(Resolution { depth: from, binding }),
            None => resolve_scoped(bindings, keystroke, contexts, from + 1),
        }
    }
}

/// The binding that `keystroke` resolves to when `contexts` are the key
/// contexts along the way from the focused node (first) out to the root
/// (last), one entry for each node, `None` where a node declares none.
///
/// An unscoped binding wins only where no scoped one applies, and its action
/// is dispatched on the focused node.
pub open spec fn resolve(
    bindings: Seq<KeyBindingView>,
    keystroke: KeystrokeView,
    contexts: Seq<Option<Seq<char>>>,
) -> Option<Resolution> {
    match resolve_scoped(bindings, keystroke, contexts, 0) {
        Some(found) => Some(found),
        None => match latest_anywhere(bindings, keystroke) {
            Some(binding) => if contexts.len() > 0 {
                Some(Resolution { depth: 0, binding })
            } else {
                None
            },
            None => None,
        },
    }
}

/// The table of key bindings, in the order in which they were installed.
#[derive(Clone, Debug)]
pub struct Keymap {
    bindings: Vec<KeyBinding>,
}

impl View for Keymap {
    type V = Seq<KeyBindingView>;

    closed spec fn view(&self) -> Seq<KeyBindingView> {
        self.bindings@.map_values(|binding: KeyBinding| binding@)
    }
}

/// The values of a batch of written bindings.
pub open spec fn specs_view(specs: Seq<BindingSpec>) -> Seq<BindingSpecView> {
    specs.map_values(|spec: BindingSpec| spec@)
}

impl Keymap {
    /// The empty table.
    pub fn new() -> (r: Keymap)
        ensures
            r@ == Seq::<KeyBindingView>::empty(),
    {
        let keymap = Keymap { bindings: Vec::new() };
        assert(keymap@ =~= Seq::<KeyBindingView>::empty());
        keymap
    }

    /// The number of installed bindings.
    pub fn len(&self) -> (r: usize)
        ensures
            r == self@.len(),
    {
        self.bindings.len()
    }

    /// The binding installed at `index`.
    pub fn get(&self, index: usize) -> (r: Option<&KeyBinding>)
        ensures
            match r {
                Some(binding) => index < self@.len() && binding@ == self@[index as int],
                None => index >= self@.len(),
            },
    {
        if index < self.bindings.len() {
            Some(&self.bindings[index])
        } else {
            None
        }
    }

    /// Installs a batch of written bindings after those already installed.
    ///
    /// A binding whose keystroke cannot be read is left out and reported; the
    /// others of the batch are installed all the same.
    pub fn bind_keys(&mut self, specs: &Vec<BindingSpec>) -> (r: Vec<MalformedBinding>)
        ensures
            final(self)@ == old(self)@ + installed(specs_view(specs@)),
            r@ == refused(specs_view(specs@)),
    {
        let ghost batch = specs_view(specs@);
        let mut malformed: Vec<MalformedBinding> = Vec::new();
        let mut i: usize = 0;
        proof {
            assert(batch.take(0) =~= Seq::<BindingSpecView>::empty());
            assert(self@ =~= old(self)@ + installed(batch.take(0)));
        }
        while i < specs.len()
            invariant
                i <= specs.len(),
                batch == specs_view(specs@),
                self@ == old(self)@ + installed(batch.take(i as int)),
                malformed@ == refused(batch.take(i as int)),
            decreases specs.len() - i,
        {
            proof {
                assert(batch.take(i + 1).drop_last() =~= batch.take(i as int));
                assert(batch.take(i + 1).last() == specs@[i as int]@);
            }
            let ghost before = self@;
            match KeyBinding::load(&specs[i]) {
                Ok(binding) => {
                    self.bindings.push(binding);
                    proof {
                        assert(self@ =~= before.push(binding@));
                        assert(self@ =~= old(self)@ + installed(batch.take(i + 1)));
                    }
                },
                Err(reason) => {
                    malformed.push(MalformedBinding { index: i, reason });
                },
            }
            i += 1;
        }
        proof {
            assert(batch.take(specs.len() as int) =~= batch);
        }
        malformed
    }

    /// The last installed binding for `keystroke` that is scoped to the
    /// context `declared`.
    pub fn latest_under(&self, keystroke: &Keystroke, declared: &String) -> (r: Option<usize>)
        ensures
            match r {
                Some(index) => latest_under(self@, keystroke@, declared@) == Some(index as int),
                None => latest_under(self@, keystroke@, declared@) is None,
            },
    {
        let mut i: usize = self.bindings.len();
        proof {
            assert(self@.take(i as int) =~= self@);
        }
        while i > 0
            invariant
                i <= self.bindings.len(),
                latest_under(self@, keystroke@, declared@) == latest_under(
                    self@.take(i as int),
                    keystroke@,
                    declared@,
                ),
            decreases i,
        {
            proof {
                assert(self@.take(i as int).drop_last() =~= self@.take(i - 1));
                assert(self@.take(i as int).last() == self.bindings@[i - 1]@);
            }
            if self.bindings[i - 1].applies_under(keystroke, declared) {
                return Some(i - 1);
            }
            i -= 1;
        }
        None
    }

    /// The last installed binding for `keystroke` that is scoped to no
    /// context.
    pub fn latest_anywhere(&self, keystroke: &Keystroke) -> (r: Option<usize>)
        ensures
            match r {
                Some(index) => latest_anywhere(self@, keystroke@) == Some(index as int),
                None => latest_anywhere(self@, keystroke@) is None,
            },
    {
        let mut i: usize = self.bindings.len();
        proof {
            assert(self@.take(i as int) =~= self@);
        }
        while i > 0
            invariant
                i <= self.bindings.len(),
                latest_anywhere(self@, keystroke@) == latest_anywhere(
                    self@.take(i as int),
                    keystroke@,
                ),
            decreases i,
        {
            proof {
                assert(self@.take(i as int).drop_last() =~= self@.take(i - 1));
                assert(self@.take(i as int).last() == self.bindings@[i - 1]@);
            }
            if self.bindings[i - 1].applies_anywhere(keystroke) {
                return Some(i - 1);
            }
            i -= 1;
        }
        None
    }
}

/// The last binding that applies under a context is one that applies, and none
/// installed after it does; there is none only where no binding applies.
pub proof fn lemma_latest_under(
    bindings: Seq<KeyBindingView>,
    keystroke: KeystrokeView,
    declared: Seq<char>,
)
    ensures
        match latest_under(bindings, keystroke, declared) {
            Some(index) => {
                &&& 0 <= index < bindings.len()
                &&& bindings[index].applies_under(keystroke, declared)
                &&& forall|later: int|
                    index < later < bindings.len() ==> !(#[trigger] bindings[later]).applies_under(
                        keystroke,
                        declared,
                    )
            },
            None => forall|any: int|
                0 <= any < bindings.len() ==> !(#[trigger] bindings[any]).applies_under(
                    keystroke,
                    declared,
                ),
        },
    decreases bindings.len(),
{
    if bindings.len() > 0 && !bindings.last().applies_under(keystroke, declared) {
        let shorter = bindings.drop_last();
        lemma_latest_under(shorter, keystroke, declared);
        assert forall|any: int| 0 <= any < shorter.len() implies shorter[any] == bindings[any] by {}
    }
}

/// The last unscoped binding for a keystroke is one, and none installed after
/// it is; there is none only where the table holds no such binding.
pub proof fn lemma_latest_anywhere(bindings: Seq<KeyBindingView>, keystroke: KeystrokeView)
    ensures
        match latest_anywhere(bindings, keystroke) {
            Some(index) => {
                &&& 0 <= index < bindings.len()
                &&& bindings[index].applies_anywhere(keystroke)
                &&& forall|later: int|
                    index < later < bindings.len() ==> !(
                    #[trigger] bindings[later]).applies_anywhere(keystroke)
            },
            None => forall|any: int|
                0 <= any < bindings.len() ==> !(#[trigger] bindings[any]).applies_anywhere(
                    keystroke,
                ),
        },
    decreases bindings.len(),
{
    if bindings.len() > 0 && !bindings.last().applies_anywhere(keystroke) {
        let shorter = bindings.drop_last();
        lemma_latest_anywhere(shorter, keystroke);
        assert forall|any: int| 0 <= any < shorter.len() implies shorter[any] == bindings[any] by {}
    }
}

/// Whether some binding for `keystroke` is scoped to the context declared
/// `depth` steps out.
pub open spec fn bound_at(
    bindings: Seq<KeyBindingView>,
    keystroke: KeystrokeView,
    contexts: Seq<Option<Seq<char>>>,
    depth: int,
) -> bool {
    &&& 0 <= depth < contexts.len()
    &&& contexts[depth] is Some
    &&& exists|index: int|
        0 <= index < bindings.len() && (#[trigger] bindings[index]).applies_under(
            keystroke,
            contexts[depth]->0,
        )
}

/// What the scoped search finds is the nearest step, from `from` on, at which
/// a binding applies, with the last binding that applies there; it finds
/// nothing only where no binding applies at any step from `from` on.
pub proof fn lemma_resolve_scoped(
    bindings: Seq<KeyBindingView>,
    keystroke: KeystrokeView,
    contexts: Seq<Option<Seq<char>>>,
    from: int,
)
    requires
        0 <= from,
    ensures
        match resolve_scoped(bindings, keystroke, contexts, from) {
            Some(found) => {
                &&& from <= found.depth < contexts.len()
                &&& contexts[found.depth] is Some
                &&& latest_under(bindings, keystroke, contexts[found.depth]->0) == Some(
                    found.binding,
                )
                &&& forall|nearer: int|
                    from <= nearer < found.depth ==> !bound_at(
                        bindings,
                        keystroke,
                        contexts,
                        nearer,
                    )
            },
            None => forall|depth: int| from <= depth ==> !bound_at(
                bindings,
                keystroke,
                contexts,
                depth,
            ),
        },
    decreases contexts.len() - from,
{
    if from < contexts.len() {
        match contexts[from] {
            Some(declared) => {
                lemma_latest_under(bindings, keystroke, declared);
            },
            None => {},
        }
        lemma_resolve_scoped(bindings, keystroke, contexts, from + 1);
    }
}

/// Of two bindings for the same keystroke under the same context, the one
/// installed first never wins.
pub proof fn lemma_last_registration_wins(
    bindings: Seq<KeyBindingView>,
    keystroke: KeystrokeView,
    contexts: Seq<Option<Seq<char>>>,
    earlier: int,
    later: int,
)
    requires
        0 <= earlier < later < bindings.len(),
        bindings[earlier].keystroke == bindings[later].keystroke,
        bindings[earlier].context == bindings[later].context,
    ensures
        match resolve(bindings, keystroke, contexts) {
            Some(found) => found.binding != earlier,
            None => true,
        },
{
    lemma_resolve_scoped(bindings, keystroke, contexts, 0);
    lemma_latest_anywhere(bindings, keystroke);
    match resolve_scoped(bindings, keystroke, contexts, 0) {
        Some(found) => {
            lemma_latest_under(bindings, keystroke, contexts[found.depth]->0);
        },
        None => {},
    }
}

/// A keystroke resolves to nothing exactly where nothing is focused or no
/// binding is for it under any of the contexts, nor without a context.
pub proof fn lemma_resolve_none(
    bindings: Seq<KeyBindingView>,
    keystroke: KeystrokeView,
    contexts: Seq<Option<Seq<char>>>,
)
    ensures
        resolve(bindings, keystroke, contexts) is None <==> {
            ||| contexts.len() == 0
            ||| {
                &&& forall|depth: int| !bound_at(bindings, keystroke, contexts, depth)
                &&& forall|index: int|
                    0 <= index < bindings.len() ==> !(#[trigger] bindings[index]).applies_anywhere(
                        keystroke,
                    )
            }
        },
{
    lemma_resolve_scoped(bindings, keystroke, contexts, 0);
    lemma_latest_anywhere(bindings, keystroke);
    match resolve_scoped(bindings, keystroke, contexts, 0) {
        Some(found) => {
            assert(bound_at(bindings, keystroke, contexts, found.depth)) by {
                lemma_latest_under(bindings, keystroke, contexts[found.depth]->0);
            }
        },
        None => {
            assert forall|depth: int| !bound_at(bindings, keystroke, contexts, depth) by {
                if depth < 0 {
                } else {
                }
            }
        },
    }
}

} // verus!
