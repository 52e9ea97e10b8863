//! Modifier snapshots, keystrokes, and the textual form of a keystroke.
//!
//! A keystroke is written as its held modifiers, each followed by `-`, and then
//! the key: `ctrl-g`, `shift-cmd-enter`, `g`. The key `-` itself is written as
//! an empty component followed by `-`: `-`, `ctrl--`.

use vstd::prelude::*;
use vstd::std_specs::iter::IteratorSpec;
use vstd::string::*;

verus! {

/// One of the five modifier keys.
#[derive(Clone, Copy, Debug, PartialEq, Eq, Hash, Structural)]
pub enum ModifierKey {
    Control,
    Alt,
    Shift,
    Command,
    Function,
}

/// Which modifier keys were held at the moment of an event.
#[derive(Clone, Copy, Debug, Default, PartialEq, Eq, Hash, Structural)]
pub struct Modifiers {
    pub control: bool,
    pub alt: bool,
    pub shift: bool,
    pub command: bool,
    pub function: bool,
}

impl Modifiers {
    /// The snapshot in which no modifier is held.
    pub open spec fn spec_none() -> Modifiers {
        Modifiers { control: false, alt: false, shift: false, command: false, function: false }
    }

    /// The snapshot in which no modifier is held.
    #[verifier::when_used_as_spec(spec_none)]
    pub fn none() -> (r: Modifiers)
        ensures
            r == Modifiers::spec_none(),
    {
        Modifiers { control: false, alt: false, shift: false, command: false, function: false }
    }

    /// Whether `key` is held in this snapshot.
    pub open spec fn spec_holds(self, key: ModifierKey) -> bool {
        match key {
            ModifierKey::Control => self.control,
            ModifierKey::Alt => self.alt,
            ModifierKey::Shift => self.shift,
            ModifierKey::Command => self.command,
            ModifierKey::Function => self.function,
        }
    }

    /// Whether `key` is held in this snapshot.
    #[verifier::when_used_as_spec(spec_holds)]
    pub fn holds(self, key: ModifierKey) -> (r: bool)
        ensures
            r == self.spec_holds(key),
    {
        match key {
            ModifierKey::Control => self.control,
            ModifierKey::Alt => self.alt,
            ModifierKey::Shift => self.shift,
            ModifierKey::Command => self.command,
            ModifierKey::Function => self.function,
        }
    }

    /// This snapshot with `key` held as well.
    pub open spec fn spec_with(self, key: ModifierKey) -> Modifiers {
        match key {
            ModifierKey::Control => Modifiers { control: true, ..self },
            ModifierKey::Alt => Modifiers { alt: true, ..self },
            ModifierKey::Shift => Modifiers { shift: true, ..self },
            ModifierKey::Command => Modifiers { command: true, ..self },
            ModifierKey::Function => Modifiers { function: true, ..self },
        }
    }

    /// This snapshot with `key` held as well.
    #[verifier::when_used_as_spec(spec_with)]
    pub fn with(self, key: ModifierKey) -> (r: Modifiers)
        ensures
            r == self.spec_with(key),
    {
        let mut next = self;
        match key {
            ModifierKey::Control => {
                next.control = true;
            },
            ModifierKey::Alt => {
                next.alt = true;
            },
            ModifierKey::Shift => {
                next.shift = true;
            },
            ModifierKey::Command => {
                next.command = true;
            },
            ModifierKey::Function => {
                next.function = true;
            },
        }
        next
    }

    /// Whether any modifier is held.
    pub open spec fn spec_modified(&self) -> bool {
        self.control || self.alt || self.shift || self.command || self.function
    }

    /// Whether any modifier is held.
    #[verifier::when_used_as_spec(spec_modified)]
    pub fn modified(&self) -> (r: bool)
        ensures
            r == self.spec_modified(),
    {
        self.control || self.alt || self.shift || self.command || self.function
    }
}

/// A key together with the modifiers held when it was pressed.
#[derive(Clone, Debug, PartialEq, Eq, Hash)]
pub struct Keystroke {
    pub modifiers: Modifiers,
    pub key: String,
}

/// The mathematical value of a [`Keystroke`].
pub struct KeystrokeView {
    pub modifiers: Modifiers,
    pub key: Seq<char>,
}

impl View for Keystroke {
    type V = KeystrokeView;

    open spec fn view(&self) -> KeystrokeView {
        KeystrokeView { modifiers: self.modifiers, key: self.key@ }
    }
}

/// Why a text is not a keystroke.
#[derive(Clone, Copy, Debug, PartialEq, Eq, Hash, Structural)]
pub enum KeystrokeError {
    /// A component before the key is not the name of a modifier.
    UnknownModifier,
    /// Every leading component names a modifier, but no key follows them.
    MissingKey,
}

/// The written name of a modifier key.
pub open spec fn modifier_name(key: ModifierKey) -> Seq<char> {
    match key {
        ModifierKey::Control => seq!['c', 't', 'r', 'l'],
        ModifierKey::Alt => seq!['a', 'l', 't'],
        ModifierKey::Shift => seq!['s', 'h', 'i', 'f', 't'],
        ModifierKey::Command => seq!['c', 'm', 'd'],
        ModifierKey::Function => seq!['f', 'n'],
    }
}

/// The modifier key that `word` names, if it names one.
pub open spec fn modifier_named(word: Seq<char>) -> Option<ModifierKey> {
    if word == modifier_name(ModifierKey::Control) {
        Some(ModifierKey::Control)
    } else if word == modifier_name(ModifierKey::Alt) {
        Some(ModifierKey::Alt)
    } else if word == modifier_name(ModifierKey::Shift) {
        Some(ModifierKey::Shift)
    } else if word == modifier_name(ModifierKey::Command) {
        Some(ModifierKey::Command)
    } else if word == modifier_name(ModifierKey::Function) {
        Some(ModifierKey::Function)
    } else {
        None
    }
}

/// The components of `text`: the maximal runs of characters between its `-`
/// separators, in order. A text with `n` separators has `n + 1` components.
pub open spec fn split(text: Seq<char>) -> Seq<Seq<char>>
    decreases text.len(),
{
    if text.len() == 0 {
        seq![Seq::<char>::empty()]
    } else {
        let before = split(text.drop_last());
        if text.last() == '-' {
            before.push(Seq::<char>::empty())
        } else {
            before.drop_last().push(before.last().push(text.last()))
        }
    }
}

/// The text whose components are `parts`: the parts joined by `-`.
pub open spec fn join(parts: Seq<Seq<char>>) -> Seq<char>
    decreases parts.len(),
{
    if parts.len() == 0 {
        Seq::<char>::empty()
    } else if parts.len() == 1 {
        parts[0]
    } else {
        join(parts.drop_last()) + seq!['-'] + parts.last()
    }
}

/// Whether every one of `parts` names a modifier.
pub open spec fn all_modifiers(parts: Seq<Seq<char>>) -> bool {
    forall|i: int| 0 <= i < parts.len() ==> (#[trigger] modifier_named(parts[i])) is Some
}

/// The snapshot that holds exactly the modifiers named among `parts`.
pub open spec fn held(parts: Seq<Seq<char>>) -> Modifiers
    decreases parts.len(),
{
    if parts.len() == 0 {
        Modifiers::spec_none()
    } else {
        match modifier_named(parts.last()) {
            Some(key) => held(parts.drop_last()).spec_with(key),
            None => held(parts.drop_last()),
        }
    }
}

/// Whether `word` can stand as the key of a written keystroke: it is not
/// empty, holds no `-`, and is not the name of a modifier.
pub open spec fn is_key_name(word: Seq<char>) -> bool {
    &&& word.len() > 0
    &&& !word.contains('-')
    &&& modifier_named(word) is None
}

/// Whether `parts` ends in the two empty components that write the key `-`.
pub open spec fn writes_dash_key(parts: Seq<Seq<char>>) -> bool {
    &&& parts.len() >= 2
    &&& parts[parts.len() - 2].len() == 0
    &&& parts[parts.len() - 1].len() == 0
}

/// The components of `parts` that stand before the key.
pub open spec fn leading(parts: Seq<Seq<char>>) -> Seq<Seq<char>> {
    if writes_dash_key(parts) {
        parts.take(parts.len() - 2)
    } else {
        parts.take(parts.len() - 1)
    }
}

/// What a text with the components `parts` denotes.
pub open spec fn read_parts(parts: Seq<Seq<char>>) -> Result<KeystrokeView, KeystrokeError>
    recommends
        parts.len() >= 1,
{
    if !all_modifiers(leading(parts)) {
        Err(KeystrokeError::UnknownModifier)
    } else if writes_dash_key(parts) {
        Ok(KeystrokeView { modifiers: held(leading(parts)), key: seq!['-'] })
    } else if is_key_name(parts.last()) {
        Ok(KeystrokeView { modifiers: held(leading(parts)), key: parts.last() })
    } else {
        Err(KeystrokeError::MissingKey)
    }
}

/// The keystroke that `text` denotes, or why it denotes none.
pub open spec fn parse_spec(text: Seq<char>) -> Result<KeystrokeView, KeystrokeError> {
    read_parts(split(text))
}

/// The names of the modifiers held in `modifiers`, in the order control, alt,
/// shift, command, function.
pub open spec fn held_names(modifiers: Modifiers) -> Seq<Seq<char>> {
    let a = Seq::<Seq<char>>::empty();
    let b = if modifiers.control { a.push(modifier_name(ModifierKey::Control)) } else { a };
    let c = if modifiers.alt { b.push(modifier_name(ModifierKey::Alt)) } else { b };
    let d = if modifiers.shift { c.push(modifier_name(ModifierKey::Shift)) } else { c };
    let e = if modifiers.command { d.push(modifier_name(ModifierKey::Command)) } else { d };
    if modifiers.function { e.push(modifier_name(ModifierKey::Function)) } else { e }
}

/// The text before the key in a written keystroke whose leading components
/// are `names`: each name followed by `-`.
pub open spec fn dashed(names: Seq<Seq<char>>) -> Seq<char> {
    if names.len() == 0 {
        Seq::<char>::empty()
    } else {
        join(names) + seq!['-']
    }
}

impl KeystrokeView {
    /// Whether this keystroke has a written form: its key is `-` or a key name.
    pub open spec fn representable(self) -> bool {
        self.key == seq!['-'] || is_key_name(self.key)
    }

    /// The components of the written form.
    pub open spec fn parts(self) -> Seq<Seq<char>> {
        if self.key == seq!['-'] {
            held_names(self.modifiers).push(Seq::<char>::empty()).push(Seq::<char>::empty())
        } else {
            held_names(self.modifiers).push(self.key)
        }
    }

    /// The written form.
    pub open spec fn unparse(self) -> Seq<char> {
        join(self.parts())
    }
}


/// Every component of a text is free of `-`, and a text has at least one
/// component.
pub proof fn lemma_split_parts(text: Seq<char>)
    ensures
        split(text).len() >= 1,
        forall|k: int| 0 <= k < split(text).len() ==> !(#[trigger] split(text)[k]).contains('-'),
    decreases text.len(),
{
    if text.len() > 0 {
        lemma_split_parts(text.drop_last());
        let before = split(text.drop_last());
        if text.last() != '-' {
            let grown = before.last().push(text.last());
            assert forall|j: int| 0 <= j < grown.len() implies grown[j] != '-' by {
                if j < before.last().len() {
                    assert(before.last().contains(grown[j]));
                }
            }
        }
    }
}

/// A text without `-` is its own single component.
proof fn lemma_split_word(word: Seq<char>)
    requires
        !word.contains('-'),
    ensures
        split(word) == seq![word],
    decreases word.len(),
{
    if word.len() > 0 {
        let shorter = word.drop_last();
        assert forall|j: int| 0 <= j < shorter.len() implies shorter[j] != '-' by {
            assert(word.contains(word[j]));
        }
        lemma_split_word(shorter);
        assert(word.contains(word.last()));
        assert(shorter.push(word.last()) =~= word);
        assert(split(word) =~= seq![word]);
    } else {
        assert(word =~= Seq::<char>::empty());
    }
}

/// Writing `-` and a word without `-` after a text adds the word as one more
/// component.
proof fn lemma_split_append(text: Seq<char>, word: Seq<char>)
    requires
        !word.contains('-'),
    ensures
        split(text + seq!['-'] + word) == split(text).push(word),
    decreases word.len(),
{
    let whole = text + seq!['-'] + word;
    if word.len() == 0 {
        assert(whole.drop_last() =~= text);
        assert(word =~= Seq::<char>::empty());
    } else {
        let shorter = word.drop_last();
        assert forall|j: int| 0 <= j < shorter.len() implies shorter[j] != '-' by {
            assert(word.contains(word[j]));
        }
        lemma_split_append(text, shorter);
        assert(word.contains(word.last()));
        assert(whole.drop_last() =~= text + seq!['-'] + shorter);
        assert(whole.last() == word.last());
        assert(shorter.push(word.last()) =~= word);
        assert(split(whole) =~= split(text).push(word));
    }
}

/// Splitting undoes joining, for components that hold no `-`.
pub proof fn lemma_split_join(parts: Seq<Seq<char>>)
    requires
        parts.len() >= 1,
        forall|i: int| 0 <= i < parts.len() ==> !(#[trigger] parts[i]).contains('-'),
    ensures
        split(join(parts)) == parts,
    decreases parts.len(),
{
    if parts.len() == 1 {
        lemma_split_word(parts[0]);
        assert(parts =~= seq![parts[0]]);
    } else {
        let init = parts.drop_last();
        assert forall|i: int| 0 <= i < init.len() implies !(#[trigger] init[i]).contains('-') by {
            assert(init[i] == parts[i]);
        }
        lemma_split_join(init);
        lemma_split_append(join(init), parts.last());
        assert(init.push(parts.last()) =~= parts);
    }
}

/// Each modifier's name names that modifier and holds no `-`.
pub proof fn lemma_modifier_names(key: ModifierKey)
    ensures
        modifier_named(modifier_name(key)) == Some(key),
        !modifier_name(key).contains('-'),
{
    let ctrl = modifier_name(ModifierKey::Control);
    let alt = modifier_name(ModifierKey::Alt);
    let shift = modifier_name(ModifierKey::Shift);
    let cmd = modifier_name(ModifierKey::Command);
    let function = modifier_name(ModifierKey::Function);
    assert(ctrl.len() == 4 && alt.len() == 3 && shift.len() == 5 && cmd.len() == 3
        && function.len() == 2);
    assert(alt[0] == 'a' && cmd[0] == 'c');
    let name = modifier_name(key);
    assert forall|j: int| 0 <= j < name.len() implies name[j] != '-' by {
        match key {
            ModifierKey::Control => {
                assert(name[0] == 'c' && name[1] == 't' && name[2] == 'r' && name[3] == 'l');
            },
            ModifierKey::Alt => {
                assert(name[0] == 'a' && name[1] == 'l' && name[2] == 't');
            },
            ModifierKey::Shift => {
                assert(name[0] == 's' && name[1] == 'h' && name[2] == 'i' && name[3] == 'f'
                    && name[4] == 't');
            },
            ModifierKey::Command => {
                assert(name[0] == 'c' && name[1] == 'm' && name[2] == 'd');
            },
            ModifierKey::Function => {
                assert(name[0] == 'f' && name[1] == 'n');
            },
        }
    }
}

/// Adding a modifier's name to a list of names adds that modifier to what the
/// list holds.
proof fn lemma_held_push(names: Seq<Seq<char>>, key: ModifierKey)
    requires
        all_modifiers(names),
    ensures
        all_modifiers(names.push(modifier_name(key))),
        held(names.push(modifier_name(key))) == held(names).spec_with(key),
{
    lemma_modifier_names(key);
    let longer = names.push(modifier_name(key));
    assert(longer.drop_last() =~= names);
    assert forall|i: int| 0 <= i < longer.len() implies (#[trigger] modifier_named(
        longer[i],
    )) is Some by {
        if i < names.len() {
            assert(longer[i] == names[i]);
        }
    }
}

/// The names written for a snapshot are modifier names, hold no `-`, and
/// together hold exactly that snapshot.
pub proof fn lemma_held_names(modifiers: Modifiers)
    ensures
        all_modifiers(held_names(modifiers)),
        held(held_names(modifiers)) == modifiers,
        forall|i: int|
            0 <= i < held_names(modifiers).len() ==> !(#[trigger] held_names(
                modifiers,
            )[i]).contains('-'),
{
    let a = Seq::<Seq<char>>::empty();
    let b = if modifiers.control { a.push(modifier_name(ModifierKey::Control)) } else { a };
    let c = if modifiers.alt { b.push(modifier_name(ModifierKey::Alt)) } else { b };
    let d = if modifiers.shift { c.push(modifier_name(ModifierKey::Shift)) } else { c };
    let e = if modifiers.command { d.push(modifier_name(ModifierKey::Command)) } else { d };
    let f = if modifiers.function { e.push(modifier_name(ModifierKey::Function)) } else { e };
    assert(all_modifiers(a));
    lemma_held_push(a, ModifierKey::Control);
    lemma_held_push(b, ModifierKey::Alt);
    lemma_held_push(c, ModifierKey::Shift);
    lemma_held_push(d, ModifierKey::Command);
    lemma_held_push(e, ModifierKey::Function);
    assert(f == held_names(modifiers));
    assert forall|i: int| 0 <= i < f.len() implies !(#[trigger] f[i]).contains('-') by {
        let key = modifier_named(f[i])->0;
        lemma_modifier_names(key);
        lemma_name_of_named(f[i]);
    }
}

/// A word that names a modifier is that modifier's name.
proof fn lemma_name_of_named(word: Seq<char>)
    requires
        modifier_named(word) is Some,
    ensures
        word == modifier_name(modifier_named(word)->0),
{
}

/// One more leading component adds its characters and a `-`.
proof fn lemma_dashed_push(names: Seq<Seq<char>>, name: Seq<char>)
    ensures
        dashed(names.push(name)) == dashed(names) + name + seq!['-'],
{
    let longer = names.push(name);
    assert(longer.drop_last() =~= names);
    if names.len() == 0 {
        assert(longer[0] == name);
        assert(dashed(longer) =~= dashed(names) + name + seq!['-']);
    } else {
        assert(dashed(longer) =~= dashed(names) + name + seq!['-']);
    }
}

/// Reading the written form of a keystroke gives the keystroke back.
pub proof fn lemma_parse_unparse(keystroke: KeystrokeView)
    requires
        keystroke.representable(),
    ensures
        parse_spec(keystroke.unparse()) == Ok::<KeystrokeView, KeystrokeError>(keystroke),
{
    let names = held_names(keystroke.modifiers);
    let parts = keystroke.parts();
    lemma_held_names(keystroke.modifiers);
    let dash = seq!['-'];
    assert(dash.len() == 1 && dash[0] == '-');
    let nothing = Seq::<char>::empty();
    if keystroke.key == dash {
        assert(parts == names.push(nothing).push(nothing));
        assert forall|i: int| 0 <= i < parts.len() implies !(#[trigger] parts[i]).contains(
            '-',
        ) by {
            if i < names.len() {
                assert(parts[i] == names[i]);
            }
        }
        lemma_split_join(parts);
        assert(writes_dash_key(parts));
        assert(leading(parts) =~= names);
    } else {
        assert(parts == names.push(keystroke.key));
        assert forall|i: int| 0 <= i < parts.len() implies !(#[trigger] parts[i]).contains(
            '-',
        ) by {
            if i < names.len() {
                assert(parts[i] == names[i]);
            }
        }
        lemma_split_join(parts);
        assert(!writes_dash_key(parts));
        assert(leading(parts) =~= names);
        assert(parts.last() == keystroke.key);
    }
}

/// The characters of `text`, in order.
fn chars_of(text: &str) -> (r: Vec<char>)
    ensures
        r@ == text@,
{
    broadcast use group_string_axioms;

    let mut rest = text.chars();
    let mut out: Vec<char> = Vec::new();
    loop
        invariant
            out@ + rest.remaining() == text@,
            rest.obeys_prophetic_iter_laws(),
            rest.decrease() is Some,
        ensures
            out@ == text@,
        decreases rest.decrease()->0,
    {
        match rest.next() {
            Some(c) => {
                out.push(c);
                proof {
                    assert(out@ + rest.remaining() =~= text@);
                }
            },
            None => {
                proof {
                    assert(out@ + rest.remaining() =~= out@);
                }
                break ;
            },
        }
    }
    out
}

/// Whether the characters of `chars` from `start` up to `end` spell `word`.
fn spells(chars: &Vec<char>, start: usize, end: usize, word: &str) -> (r: bool)
    requires
        start <= end <= chars.len(),
    ensures
        r == (chars@.subrange(start as int, end as int) == word@),
{
    let letters = chars_of(word);
    if letters.len() != end - start {
        return false;
    }
    let mut i: usize = 0;
    while i < letters.len()
        invariant
            start <= end <= chars.len(),
            letters.len() == end - start,
            letters@ == word@,
            i <= letters.len(),
            forall|j: int| 0 <= j < i ==> chars@[start + j] == letters@[j],
        decreases letters.len() - i,
    {
        if chars[start + i] != letters[i] {
            proof {
                assert(chars@.subrange(start as int, end as int)[i as int] != word@[i as int]);
            }
            return false;
        }
        i += 1;
    }
    proof {
        assert(chars@.subrange(start as int, end as int) =~= word@);
    }
    true
}

/// The modifier key named by the characters of `chars` from `start` up to
/// `end`, if they name one.
fn modifier_at(chars: &Vec<char>, start: usize, end: usize) -> (r: Option<ModifierKey>)
    requires
        start <= end <= chars.len(),
    ensures
        r == modifier_named(chars@.subrange(start as int, end as int)),
{
    if spells(chars, start, end, name_of(ModifierKey::Control)) {
        Some(ModifierKey::Control)
    } else if spells(chars, start, end, name_of(ModifierKey::Alt)) {
        Some(ModifierKey::Alt)
    } else if spells(chars, start, end, name_of(ModifierKey::Shift)) {
        Some(ModifierKey::Shift)
    } else if spells(chars, start, end, name_of(ModifierKey::Command)) {
        Some(ModifierKey::Command)
    } else if spells(chars, start, end, name_of(ModifierKey::Function)) {
        Some(ModifierKey::Function)
    } else {
        None
    }
}

/// Where the components of `chars` begin and end: for each component, in
/// order, the index of its first character and the index after its last.
fn component_bounds(chars: &Vec<char>) -> (r: Vec<(usize, usize)>)
    ensures
        r.len() == split(chars@).len(),
        forall|k: int|
            0 <= k < r.len() ==> (#[trigger] r[k]).0 <= r[k].1 <= chars.len() && split(
                chars@,
            )[k] == chars@.subrange(r[k].0 as int, r[k].1 as int),
{
    let n = chars.len();
    let mut bounds: Vec<(usize, usize)> = Vec::new();
    let mut start: usize = 0;
    let mut i: usize = 0;
    proof {
        assert(chars@.take(0) =~= Seq::<char>::empty());
        assert(chars@.subrange(0, 0) =~= Seq::<char>::empty());
    }
    while i < n
        invariant
            n == chars.len(),
            start <= i <= n,
            bounds.len() + 1 == split(chars@.take(i as int)).len(),
            forall|k: int|
                0 <= k < bounds.len() ==> (#[trigger] bounds[k]).0 <= bounds[k].1 <= n && split(
                    chars@.take(i as int),
                )[k] == chars@.subrange(bounds[k].0 as int, bounds[k].1 as int),
            split(chars@.take(i as int)).last() == chars@.subrange(start as int, i as int),
        decreases n - i,
    {
        let ghost before = split(chars@.take(i as int));
        let ghost longer = chars@.take(i + 1);
        proof {
            assert(longer.drop_last() =~= chars@.take(i as int));
            assert(longer.last() == chars[i as int]);
        }
        if chars[i] == '-' {
            bounds.push((start, i));
            start = i + 1;
            proof {
                assert(split(longer) == before.push(Seq::<char>::empty()));
                assert(chars@.subrange(start as int, start as int) =~= Seq::<char>::empty());
            }
        } else {
            proof {
                assert(split(longer) == before.drop_last().push(
                    before.last().push(chars[i as int]),
                ));
                assert(chars@.subrange(start as int, i as int).push(chars[i as int])
                    =~= chars@.subrange(start as int, i + 1));
            }
        }
        i += 1;
    }
    proof {
        assert(chars@.take(n as int) =~= chars@);
    }
    bounds.push((start, n));
    bounds
}

/// The written name of `key`.
fn name_of(key: ModifierKey) -> (r: &'static str)
    ensures
        r@ == modifier_name(key),
{
    match key {
        ModifierKey::Control => {
            proof {
                reveal_strlit("ctrl");
                assert("ctrl"@ =~= modifier_name(ModifierKey::Control));
            }
            "ctrl"
        },
        ModifierKey::Alt => {
            proof {
                reveal_strlit("alt");
                assert("alt"@ =~= modifier_name(ModifierKey::Alt));
            }
            "alt"
        },
        ModifierKey::Shift => {
            proof {
                reveal_strlit("shift");
                assert("shift"@ =~= modifier_name(ModifierKey::Shift));
            }
            "shift"
        },
        ModifierKey::Command => {
            proof {
                reveal_strlit("cmd");
                assert("cmd"@ =~= modifier_name(ModifierKey::Command));
            }
            "cmd"
        },
        ModifierKey::Function => {
            proof {
                reveal_strlit("fn");
                assert("fn"@ =~= modifier_name(ModifierKey::Function));
            }
            "fn"
        },
    }
}

/// Appends the name of `key` and a `-` to `out` when `is_held`.
fn write_modifier(out: &mut String, is_held: bool, key: ModifierKey)
    ensures
        final(out)@ == if is_held {
            old(out)@ + modifier_name(key) + seq!['-']
        } else {
            old(out)@
        },
{
    if is_held {
        out.append(name_of(key));
        out.append("-");
        proof {
            reveal_strlit("-");
            assert("-"@ =~= seq!['-']);
        }
    }
}

impl Keystroke {
    /// Reads a written keystroke.
    ///
    /// The text is cut at each `-`. Every component before the key must name a
    /// modifier (`ctrl`, `alt`, `shift`, `cmd`, `fn`), in any order and any
    /// number of times. The key is the last component, which must not be empty
    /// nor name a modifier; two empty components at the end write the key `-`.
    pub fn parse(source: &str) -> (r: Result<Keystroke, KeystrokeError>)
        ensures
            match r {
                Ok(keystroke) => parse_spec(source@) == Ok::<KeystrokeView, KeystrokeError>(
                    keystroke@,
                ),
                Err(error) => parse_spec(source@) == Err::<KeystrokeView, KeystrokeError>(error),
            },
    {
        let chars = chars_of(source);
        let bounds = component_bounds(&chars);
        let ghost parts = split(source@);
        proof {
            lemma_split_parts(source@);
        }
        let count = bounds.len();
        let dash_key = count >= 2 && bounds[count - 2].0 == bounds[count - 2].1 && bounds[count
            - 1].0 == bounds[count - 1].1;
        let lead: usize = if dash_key {
            count - 2
        } else {
            count - 1
        };
        proof {
            assert(dash_key == writes_dash_key(parts));
            assert(leading(parts) == parts.take(lead as int));
        }
        let ghost front = leading(parts);
        let mut modifiers = Modifiers::none();
        let mut k: usize = 0;
        while k < lead
            invariant
                k <= lead < count,
                count == bounds.len(),
                front == parts.take(lead as int),
                front == leading(parts),
                parts == split(source@),
                chars@ == source@,
                dash_key == writes_dash_key(parts),
                parts.len() == count,
                forall|j: int|
                    0 <= j < bounds.len() ==> (#[trigger] bounds[j]).0 <= bounds[j].1
                        <= chars.len() && parts[j] == chars@.subrange(
                        bounds[j].0 as int,
                        bounds[j].1 as int,
                    ),
                all_modifiers(front.take(k as int)),
                modifiers == held(front.take(k as int)),
            decreases lead - k,
        {
            let (start, end) = bounds[k];
            proof {
                assert(front.take(k + 1).drop_last() =~= front.take(k as int));
                assert(front.take(k + 1).last() == parts[k as int]);
            }
            match modifier_at(&chars, start, end) {
                Some(key) => {
                    modifiers = modifiers.with(key);
                    proof {
                        assert forall|j: int| 0 <= j < front.take(k + 1).len() implies (
                        #[trigger] modifier_named(front.take(k + 1)[j])) is Some by {
                            if j < k {
                                assert(front.take(k + 1)[j] == front.take(k as int)[j]);
                            }
                        }
                    }
                },
                None => {
                    proof {
                        assert(front[k as int] == parts[k as int]);
                        assert(modifier_named(front[k as int]) is None);
                    }
                    return Err(KeystrokeError::UnknownModifier);
                },
            }
            k += 1;
        }
        proof {
            assert(front.take(lead as int) =~= front);
        }
        if dash_key {
            proof {
                reveal_strlit("-");
                assert("-"@ =~= seq!['-']);
            }
            return Ok(Keystroke { modifiers, key: "-".to_owned() });
        }
        let (start, end) = bounds[count - 1];
        proof {
            assert(parts.last() == chars@.subrange(start as int, end as int));
        }
        if start == end {
            return Err(KeystrokeError::MissingKey);
        }
        match modifier_at(&chars, start, end) {
            Some(_) => Err(KeystrokeError::MissingKey),
            None => {
                let key = source.substring_char(start, end).to_owned();
                Ok(Keystroke { modifiers, key })
            },
        }
    }

    /// Writes this keystroke: the held modifiers in the order control, alt,
    /// shift, command, function, each followed by `-`, and then the key.
    pub fn unparse(&self) -> (r: String)
        ensures
            r@ == self@.unparse(),
    {
        let ghost a = Seq::<Seq<char>>::empty();
        let ghost b = if self.modifiers.control {
            a.push(modifier_name(ModifierKey::Control))
        } else {
            a
        };
        let ghost c = if self.modifiers.alt {
            b.push(modifier_name(ModifierKey::Alt))
        } else {
            b
        };
        let ghost d = if self.modifiers.shift {
            c.push(modifier_name(ModifierKey::Shift))
        } else {
            c
        };
        let ghost e = if self.modifiers.command {
            d.push(modifier_name(ModifierKey::Command))
        } else {
            d
        };
        let ghost f = if self.modifiers.function {
            e.push(modifier_name(ModifierKey::Function))
        } else {
            e
        };
        let mut out = String::new();
        assert(out@ =~= dashed(a));
        write_modifier(&mut out, self.modifiers.control, ModifierKey::Control);
        assert(out@ == dashed(b)) by {
            lemma_dashed_push(a, modifier_name(ModifierKey::Control));
        }
        write_modifier(&mut out, self.modifiers.alt, ModifierKey::Alt);
        assert(out@ == dashed(c)) by {
            lemma_dashed_push(b, modifier_name(ModifierKey::Alt));
        }
        write_modifier(&mut out, self.modifiers.shift, ModifierKey::Shift);
        assert(out@ == dashed(d)) by {
            lemma_dashed_push(c, modifier_name(ModifierKey::Shift));
        }
        write_modifier(&mut out, self.modifiers.command, ModifierKey::Command);
        assert(out@ == dashed(e)) by {
            lemma_dashed_push(d, modifier_name(ModifierKey::Command));
        }
        write_modifier(&mut out, self.modifiers.function, ModifierKey::Function);
        assert(out@ == dashed(f)) by {
            lemma_dashed_push(e, modifier_name(ModifierKey::Function));
        }
        out.append(self.key.as_str());
        assert(out@ == self@.unparse()) by {
            let dash = seq!['-'];
            let nothing = Seq::<char>::empty();
            assert(f == held_names(self.modifiers));
            if self.key@ == dash {
                lemma_dashed_push(f, nothing);
                assert(f.push(nothing).push(nothing).drop_last() =~= f.push(nothing));
                assert(join(f.push(nothing).push(nothing)) =~= dashed(f) + dash);
            } else {
                assert(f.push(self.key@).drop_last() =~= f);
                assert(join(f.push(self.key@)) =~= dashed(f) + self.key@);
            }
        }
        out
    }

    /// Whether this keystroke is the same key with the same modifiers as
    /// `other`.
    pub fn matches(&self, other: &Keystroke) -> (r: bool)
        ensures
            r == (self@ == other@),
    {
        self.modifiers == other.modifiers && self.key == other.key
    }
}

} // verus!
