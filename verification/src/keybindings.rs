//! Configurable shortcuts for a focused session. Matching uses exact
//! modifiers, so that keys released by a remapping reach the application.

pub mod distinct;
pub mod laws;
pub mod meaning;

use crate::key::{KeyCode, KeyEvent, KeyEventKind, KeyModifiers};
use crate::text;
use vstd::prelude::*;

verus! {

/// What a shortcut does.
#[derive(Clone, Copy, Debug, PartialEq, Eq, Structural)]
pub enum Action {
    PreviousTab,
    NextTab,
    PreviousSession,
    NextSession,
    SendNextKey,
}

/// A key that an action can be bound to, with its name for people and its name
/// for tmux.
#[derive(Clone, Debug, PartialEq, Eq)]
pub struct Shortcut {
    pub event: KeyEvent,
    pub label: String,
    pub tmux: String,
}

/// The model of a shortcut.
#[verifier::ext_equal]
pub struct ShortcutView {
    pub event: KeyEvent,
    pub label: Seq<char>,
    pub tmux: Seq<char>,
}

impl View for Shortcut {
    type V = ShortcutView;

    open spec fn view(&self) -> ShortcutView {
        ShortcutView { event: self.event, label: self.label@, tmux: self.tmux@ }
    }
}

/// `modifiers` and the one that `name`, in lower case, stands for.
pub open spec fn modifiers_with(modifiers: KeyModifiers, name: Seq<char>) -> Option<KeyModifiers> {
    if name == "ctrl"@ || name == "control"@ {
        Some(KeyModifiers { control: true, ..modifiers })
    } else if name == "alt"@ || name == "option"@ {
        Some(KeyModifiers { alt: true, ..modifiers })
    } else if name == "shift"@ {
        Some(KeyModifiers { shift: true, ..modifiers })
    } else {
        None
    }
}

fn add_modifier(modifiers: KeyModifiers, name: &str) -> (res: Option<KeyModifiers>)
    ensures
        res == modifiers_with(modifiers, name@),
{
    if text::same_text(name, "ctrl") || text::same_text(name, "control") {
        Some(modifiers.with_control())
    } else if text::same_text(name, "alt") || text::same_text(name, "option") {
        Some(modifiers.with_alt())
    } else if text::same_text(name, "shift") {
        Some(modifiers.with_shift())
    } else {
        None
    }
}

/// The modifiers that `names` stand for, whatever their case, if all of them
/// do.
pub open spec fn modifiers_named(names: Seq<Seq<char>>) -> Option<KeyModifiers>
    decreases names.len(),
{
    if names.len() == 0 {
        Some(KeyModifiers::none())
    } else {
        match modifiers_named(names.drop_last()) {
            Some(modifiers) => modifiers_with(modifiers, text::lower(names.last())),
            None => None,
        }
    }
}

/// One name that is no modifier spoils the whole list.
proof fn lemma_unknown_modifier_spoils(names: Seq<Seq<char>>, n: int)
    requires
        0 <= n <= names.len(),
        modifiers_named(names.take(n)) is None,
    ensures
        modifiers_named(names) is None,
    decreases names.len(),
{
    if n < names.len() {
        assert(names.drop_last().take(n) == names.take(n));
        lemma_unknown_modifier_spoils(names.drop_last(), n);
    } else {
        assert(names.take(n) == names);
    }
}

/// The complaint about a modifier that is none.
pub open spec fn unknown_modifier_text(quoted: Seq<char>) -> Seq<char> {
    "unknown modifier in "@ + quoted
}

/// The complaint about a shortcut, given in quotes, of which a modifier is not
/// known.
pub fn unknown_modifier(quoted: &str) -> (res: String)
    ensures
        res@ == unknown_modifier_text(quoted@),
{
    let mut res = "unknown modifier in ".to_string();
    res.append(quoted);
    res
}

/// The complaint about a key that cannot be bound.
pub open spec fn unsupported_key_text(quoted: Seq<char>) -> Seq<char> {
    "unsupported key in "@ + quoted + "; use arrows, F1–F12, or Ctrl/Alt+letter"@
}

/// The complaint about a shortcut, given in quotes, of which the key is not
/// supported.
pub fn unsupported_key(quoted: &str) -> (res: String)
    ensures
        res@ == unsupported_key_text(quoted@),
{
    let mut res = "unsupported key in ".to_string();
    res.append(quoted);
    res.append("; use arrows, F1–F12, or Ctrl/Alt+letter");
    res
}

/// The key that `key`, in lower case, names when it is pressed with
/// `modifiers`, or what is wrong with it. `quoted` is the whole shortcut as a
/// complaint shows it.
pub open spec fn key_named(key: Seq<char>, modifiers: KeyModifiers, quoted: Seq<char>) -> Result<
    KeyCode,
    Seq<char>,
> {
    if key == "left"@ {
        Ok(KeyCode::Left)
    } else if key == "right"@ {
        Ok(KeyCode::Right)
    } else if key == "up"@ {
        Ok(KeyCode::Up)
    } else if key == "down"@ {
        Ok(KeyCode::Down)
    } else if key.len() > 0 && key[0] == 'f' && text::byte_value(key.skip(1)) is Some {
        let n = text::byte_value(key.skip(1)).unwrap();
        if 1 <= n <= 12 {
            Ok(KeyCode::F(n))
        } else {
            Err("only F1 through F12 are supported"@)
        }
    } else if key.len() == 1 && 'a' <= key[0] <= 'z' {
        if !(modifiers.control || modifiers.alt) || modifiers.shift {
            Err("letter shortcuts require Ctrl or Alt, without Shift"@)
        } else if modifiers.control && (key[0] == 'h' || key[0] == 'i' || key[0] == 'j' || key[0]
            == 'm') {
            Err("Ctrl+H/I/J/M are terminal aliases for Backspace, Tab, or Enter"@)
        } else {
            Ok(KeyCode::Char(key[0]))
        }
    } else {
        Err(unsupported_key_text(quoted))
    }
}

/// The name of a key in a shortcut.
pub open spec fn key_name(code: KeyCode) -> Seq<char> {
    match code {
        KeyCode::Left => "Left"@,
        KeyCode::Right => "Right"@,
        KeyCode::Up => "Up"@,
        KeyCode::Down => "Down"@,
        KeyCode::F(n) => "F"@ + text::decimal_text(n as nat),
        KeyCode::Char(c) => seq![c],
        _ => Seq::<char>::empty(),
    }
}

/// A key with its name, or what is wrong with it.
pub open spec fn key_and_name(named: Result<KeyCode, Seq<char>>) -> Result<
    (KeyCode, Seq<char>),
    Seq<char>,
> {
    match named {
        Ok(code) => Ok((code, key_name(code))),
        Err(e) => Err(e),
    }
}

/// A key with its name by the models of its texts.
pub open spec fn named_key_view(res: Result<(KeyCode, String), String>) -> Result<
    (KeyCode, Seq<char>),
    Seq<char>,
> {
    match res {
        Ok((code, name)) => Ok((code, name@)),
        Err(e) => Err(e@),
    }
}

fn named_key(key: &str, modifiers: KeyModifiers, value: &str) -> (res: Result<
    (KeyCode, String),
    String,
>)
    ensures
        named_key_view(res) == key_and_name(
            key_named(key@, modifiers, text::debug_text(value@)),
        ),
{
    if text::same_text(key, "left") {
        return Ok((KeyCode::Left, "Left".to_string()));
    }
    if text::same_text(key, "right") {
        return Ok((KeyCode::Right, "Right".to_string()));
    }
    if text::same_text(key, "up") {
        return Ok((KeyCode::Up, "Up".to_string()));
    }
    if text::same_text(key, "down") {
        return Ok((KeyCode::Down, "Down".to_string()));
    }
    let chars = text::chars_of(key);
    if chars.len() > 0 && chars[0] == 'f' {
        if let Some(n) = text::parse_byte(&chars, 1) {
            if n < 1 || n > 12 {
                return Err("only F1 through F12 are supported".to_string());
            }
            let mut name = "F".to_string();
            name.append(text::decimal(n as usize).as_str());
            return Ok((KeyCode::F(n), name));
        }
    }
    if chars.len() == 1 && 'a' <= chars[0] && chars[0] <= 'z' {
        let c = chars[0];
        // Ctrl+Shift+letter collapses to Ctrl+letter in ordinary terminals:
        // there is no telling such a shortcut apart.
        if !(modifiers.control || modifiers.alt) || modifiers.shift {
            return Err("letter shortcuts require Ctrl or Alt, without Shift".to_string());
        }
        if modifiers.control && (c == 'h' || c == 'i' || c == 'j' || c == 'm') {
            return Err(
                "Ctrl+H/I/J/M are terminal aliases for Backspace, Tab, or Enter".to_string(),
            );
        }
        let mut name = String::new();
        name.push(c);
        assert(name@ == seq![c]);
        return Ok((KeyCode::Char(c), name));
    }
    Err(unsupported_key(text::debug_quoted(value).as_str()))
}

/// The key and the modifiers that `value` names: none where it is empty or
/// `none`, an error where it is no shortcut.
pub open spec fn parsed_key(value: Seq<char>) -> Result<
    Option<(KeyCode, KeyModifiers)>,
    Seq<char>,
> {
    let value = text::trimmed(value);
    let parts = text::pieces(value, text::Separator::Exactly('+')).map_values(
        |p: Seq<char>| text::trimmed(p),
    );
    let quoted = text::debug_text(value);
    if value.len() == 0 || text::lower(value) == "none"@ {
        Ok(None)
    } else {
        match modifiers_named(parts.drop_last()) {
            None => Err(unknown_modifier_text(quoted)),
            Some(modifiers) => match key_named(text::lower(parts.last()), modifiers, quoted) {
                Ok(code) => Ok(Some((code, modifiers))),
                Err(e) => Err(e),
            },
        }
    }
}

/// `prefix` where a modifier is held.
pub open spec fn prefix_if(held: bool, prefix: Seq<char>) -> Seq<char> {
    if held {
        prefix
    } else {
        Seq::<char>::empty()
    }
}

/// The shortcut of a key with its modifiers. Both names give the modifiers in
/// the order Ctrl, Alt, Shift.
pub open spec fn shortcut_for(code: KeyCode, modifiers: KeyModifiers) -> ShortcutView {
    ShortcutView {
        event: KeyEvent::new(code, modifiers),
        label: prefix_if(modifiers.control, "Ctrl+"@) + prefix_if(modifiers.alt, "Alt+"@)
            + prefix_if(modifiers.shift, "Shift+"@) + key_name(code),
        tmux: prefix_if(modifiers.control, "C-"@) + prefix_if(modifiers.alt, "M-"@) + prefix_if(
            modifiers.shift,
            "S-"@,
        ) + key_name(code),
    }
}

/// What a shortcut's text stands for.
pub open spec fn parsed(value: Seq<char>) -> Result<Option<ShortcutView>, Seq<char>> {
    match parsed_key(value) {
        Ok(Some((code, modifiers))) => Ok(Some(shortcut_for(code, modifiers))),
        Ok(None) => Ok(None),
        Err(e) => Err(e),
    }
}

/// A parsed shortcut by its model.
pub open spec fn parse_view(res: Result<Option<Shortcut>, String>) -> Result<
    Option<ShortcutView>,
    Seq<char>,
> {
    match res {
        Ok(Some(shortcut)) => Ok(Some(shortcut@)),
        Ok(None) => Ok(None),
        Err(e) => Err(e@),
    }
}

/// Whether two events are of the same key with the same modifiers, and `event`
/// is no release.
pub open spec fn matched_by(shortcut: KeyEvent, event: KeyEvent) -> bool {
    &&& event.kind != KeyEventKind::Release
    &&& event.code == shortcut.code
    &&& event.modifiers == shortcut.modifiers
}

impl Shortcut {
    /// Reads a shortcut: modifiers and a key, joined by `+`, in any case and
    /// with white space around each. An empty text, or `none`, is no shortcut.
    pub fn parse(value: &str) -> (res: Result<Option<Self>, String>)
        ensures
            parse_view(res) == parsed(value@),
    {
        let trimmed = text::trim(value);
        if trimmed.as_str().is_empty() {
            return Ok(None);
        }
        let folded = text::ascii_lower(trimmed.as_str());
        if text::same_text(folded.as_str(), "none") {
            return Ok(None);
        }
        let pieces = text::split(trimmed.as_str(), text::Separator::Exactly('+'));
        let ghost parts = text::texts(pieces@).map_values(|p: Seq<char>| text::trimmed(p));
        let last: usize = pieces.len() - 1;
        let mut modifiers = KeyModifiers::none();
        let mut i: usize = 0;
        while i < last
            invariant
                i <= last,
                last == pieces@.len() - 1,
                trimmed@ == text::trimmed(value@),
                trimmed@.len() > 0,
                text::lower(trimmed@) != "none"@,
                text::texts(pieces@) == text::pieces(trimmed@, text::Separator::Exactly('+')),
                parts == text::texts(pieces@).map_values(|p: Seq<char>| text::trimmed(p)),
                modifiers_named(parts.take(i as int)) == Some(modifiers),
            decreases last - i,
        {
            let part = text::ascii_lower(text::trim(pieces[i].as_str()).as_str());
            proof {
                assert(parts.take(i + 1).drop_last() == parts.take(i as int));
                assert(parts.take(i + 1).last() == parts[i as int]);
            }
            match add_modifier(modifiers, part.as_str()) {
                Some(m) => {
                    modifiers = m;
                },
                None => {
                    proof {
                        assert(parts.drop_last().take(i + 1) == parts.take(i + 1));
                        lemma_unknown_modifier_spoils(parts.drop_last(), i + 1);
                    }
                    return Err(unknown_modifier(text::debug_quoted(trimmed.as_str()).as_str()));
                },
            }
            i += 1;
        }
        assert(parts.take(i as int) == parts.drop_last());
        let key = text::ascii_lower(text::trim(pieces[last].as_str()).as_str());
        let (code, name) = match named_key(key.as_str(), modifiers, trimmed.as_str()) {
            Ok(named) => named,
            Err(e) => {
                return Err(e);
            },
        };
        let mut label = String::new();
        let mut tmux = String::new();
        if modifiers.control {
            label.append("Ctrl+");
            tmux.append("C-");
        }
        if modifiers.alt {
            label.append("Alt+");
            tmux.append("M-");
        }
        if modifiers.shift {
            label.append("Shift+");
            tmux.append("S-");
        }
        label.append(name.as_str());
        tmux.append(name.as_str());
        Ok(Some(Shortcut { event: KeyEvent::new(code, modifiers), label, tmux }))
    }

    /// Whether `event` is a press of this key with exactly its modifiers.
    pub fn matches(&self, event: KeyEvent) -> (res: bool)
        ensures
            res == matched_by(self.event, event),
    {
        event.kind != KeyEventKind::Release && event.code == self.event.code && event.modifiers
            == self.event.modifiers
    }
}

/// The shortcuts as the user spells them. `none` disables an action.
#[derive(Clone, Debug)]
pub struct BindingsConfig {
    pub previous_tab: String,
    pub next_tab: String,
    pub previous_session: String,
    pub next_session: String,
    pub send_next_key: String,
}

/// Shortcuts of which some may be missing, as a configuration file gives them.
#[derive(Clone, Debug)]
pub struct PartialBindings {
    pub previous_tab: Option<String>,
    pub next_tab: Option<String>,
    pub previous_session: Option<String>,
    pub next_session: Option<String>,
    pub send_next_key: Option<String>,
}

/// The default spelling of an action's shortcut.
pub open spec fn default_spelling(action: Action) -> Seq<char> {
    match action {
        Action::PreviousTab => "Shift+Left"@,
        Action::NextTab => "Shift+Right"@,
        Action::PreviousSession => "Shift+Up"@,
        Action::NextSession => "Shift+Down"@,
        Action::SendNextKey => "Ctrl+v"@,
    }
}

impl Default for BindingsConfig {
    fn default() -> (res: Self)
        ensures
            forall|action: Action| #[trigger] res.spelling(action) == default_spelling(action),
    {
        BindingsConfig {
            previous_tab: "Shift+Left".to_string(),
            next_tab: "Shift+Right".to_string(),
            previous_session: "Shift+Up".to_string(),
            next_session: "Shift+Down".to_string(),
            send_next_key: "Ctrl+v".to_string(),
        }
    }
}

/// The bindings that result from `entries`, each an action and the spelling of
/// its shortcut, taken in order; or what is wrong with the first bad one.
pub open spec fn resolved(entries: Seq<(Action, Seq<char>)>) -> Result<
    Seq<(Action, ShortcutView)>,
    Seq<char>,
>
    decreases entries.len(),
{
    if entries.len() == 0 {
        Ok(Seq::<(Action, ShortcutView)>::empty())
    } else {
        match resolved(entries.drop_last()) {
            Ok(bindings) => with_binding(bindings, entries.last().0, entries.last().1),
            Err(e) => Err(e),
        }
    }
}

/// Whether a key is kept for the session manager itself: Ctrl with `q`, `b` or
/// `l`, whatever else is held.
pub open spec fn reserved(event: KeyEvent) -> bool {
    event.modifiers.control && (event.code == KeyCode::Char('q') || event.code == KeyCode::Char(
        'b',
    ) || event.code == KeyCode::Char('l'))
}

/// Whether one of `bindings` matches `event`.
pub open spec fn taken(bindings: Seq<(Action, ShortcutView)>, event: KeyEvent) -> bool {
    exists|i: int| 0 <= i < bindings.len() && matched_by((#[trigger] bindings[i]).1.event, event)
}

/// `bindings` and one more, if its shortcut is one and it is neither reserved
/// nor taken.
pub open spec fn with_binding(
    bindings: Seq<(Action, ShortcutView)>,
    action: Action,
    spelling: Seq<char>,
) -> Result<Seq<(Action, ShortcutView)>, Seq<char>> {
    match parsed(spelling) {
        Err(e) => Err(e),
        Ok(None) => Ok(bindings),
        Ok(Some(shortcut)) => if reserved(shortcut.event) {
            Err(shortcut.label + " is reserved by Bosun"@)
        } else if taken(bindings, shortcut.event) {
            Err(shortcut.label + " is assigned more than once"@)
        } else {
            Ok(bindings.push((action, shortcut)))
        },
    }
}

/// The model of a list of bindings.
pub open spec fn bindings_view(bindings: Seq<(Action, Shortcut)>) -> Seq<(Action, ShortcutView)> {
    bindings.map_values(|b: (Action, Shortcut)| (b.0, b.1@))
}

fn add_binding(bindings: &mut Vec<(Action, Shortcut)>, action: Action, spelling: &str) -> (res:
    Result<(), String>)
    ensures
        match with_binding(bindings_view(old(bindings)@), action, spelling@) {
            Ok(next) => res is Ok && bindings_view(final(bindings)@) == next,
            Err(e) => res matches Err(text) && text@ == e,
        },
{
    let shortcut = match Shortcut::parse(spelling) {
        Ok(Some(shortcut)) => shortcut,
        Ok(None) => {
            return Ok(());
        },
        Err(e) => {
            return Err(e);
        },
    };
    let event = shortcut.event;
    if event.modifiers.control && (event.code == KeyCode::Char('q') || event.code == KeyCode::Char(
        'b',
    ) || event.code == KeyCode::Char('l')) {
        let mut text = shortcut.label;
        text.append(" is reserved by Bosun");
        return Err(text);
    }
    let mut i: usize = 0;
    while i < bindings.len()
        invariant
            i <= bindings@.len(),
            bindings@ == old(bindings)@,
            event == shortcut@.event,
            parsed(spelling@) == Ok::<Option<ShortcutView>, Seq<char>>(Some(shortcut@)),
            !reserved(event),
            forall|j: int|
                0 <= j < i ==> !matched_by(
                    (#[trigger] bindings_view(bindings@)[j]).1.event,
                    event,
                ),
        decreases bindings@.len() - i,
    {
        if bindings[i].1.matches(event) {
            proof {
                assert(matched_by(bindings_view(bindings@)[i as int].1.event, event));
            }
            let mut text = shortcut.label;
            text.append(" is assigned more than once");
            return Err(text);
        }
        i += 1;
    }
    let ghost before = bindings_view(bindings@);
    bindings.push((action, shortcut));
    assert(bindings_view(bindings@) =~= before.push((action, shortcut@)));
    Ok(())
}

/// Resolved bindings by their model.
pub open spec fn resolve_view(res: Result<KeyBindings, String>) -> Result<
    Seq<(Action, ShortcutView)>,
    Seq<char>,
> {
    match res {
        Ok(bindings) => Ok(bindings@),
        Err(e) => Err(e@),
    }
}

/// The actions, each with its spelling, in the order in which they are bound.
pub open spec fn entries_of(spelling: spec_fn(Action) -> Seq<char>) -> Seq<(Action, Seq<char>)> {
    seq![
        (Action::PreviousTab, spelling(Action::PreviousTab)),
        (Action::NextTab, spelling(Action::NextTab)),
        (Action::PreviousSession, spelling(Action::PreviousSession)),
        (Action::NextSession, spelling(Action::NextSession)),
        (Action::SendNextKey, spelling(Action::SendNextKey)),
    ]
}

impl BindingsConfig {
    /// The spelling of an action's shortcut.
    pub open spec fn spelling(&self, action: Action) -> Seq<char> {
        match action {
            Action::PreviousTab => self.previous_tab@,
            Action::NextTab => self.next_tab@,
            Action::PreviousSession => self.previous_session@,
            Action::NextSession => self.next_session@,
            Action::SendNextKey => self.send_next_key@,
        }
    }

    /// The actions, each with its spelling, in the order in which they are
    /// bound.
    pub open spec fn entries(&self) -> Seq<(Action, Seq<char>)> {
        entries_of(|action: Action| self.spelling(action))
    }

    /// The given shortcuts; the missing ones keep their defaults.
    pub fn from_partial(partial: PartialBindings) -> (res: Self)
        ensures
            forall|action: Action| #[trigger]
                res.spelling(action) == (match partial.spelling(action) {
                    Some(spelling) => spelling,
                    None => default_spelling(action),
                }),
    {
        let defaults = BindingsConfig::default();
        assert(defaults.spelling(Action::PreviousTab) == "Shift+Left"@);
        assert(defaults.spelling(Action::NextTab) == "Shift+Right"@);
        assert(defaults.spelling(Action::PreviousSession) == "Shift+Up"@);
        assert(defaults.spelling(Action::NextSession) == "Shift+Down"@);
        assert(defaults.spelling(Action::SendNextKey) == "Ctrl+v"@);
        BindingsConfig {
            previous_tab: partial.previous_tab.unwrap_or(defaults.previous_tab),
            next_tab: partial.next_tab.unwrap_or(defaults.next_tab),
            previous_session: partial.previous_session.unwrap_or(defaults.previous_session),
            next_session: partial.next_session.unwrap_or(defaults.next_session),
            send_next_key: partial.send_next_key.unwrap_or(defaults.send_next_key),
        }
    }

    /// Reads all shortcuts. It fails on the first one that is no shortcut, is
    /// reserved, or is bound already.
    pub fn resolve(&self) -> (res: Result<KeyBindings, String>)
        ensures
            resolve_view(res) == resolved(self.entries()),
    {
        let ghost entries = self.entries();
        let mut bindings: Vec<(Action, Shortcut)> = Vec::new();
        proof {
            assert(bindings_view(bindings@) =~= Seq::<(Action, ShortcutView)>::empty());
            assert(entries.drop_last() =~= entries.take(4));
            assert(entries.take(4).drop_last() =~= entries.take(3));
            assert(entries.take(3).drop_last() =~= entries.take(2));
            assert(entries.take(2).drop_last() =~= entries.take(1));
            assert(entries.take(1).drop_last() =~= entries.take(0));
            reveal_with_fuel(resolved, 6);
        }
        if let Err(e) = add_binding(&mut bindings, Action::PreviousTab, self.previous_tab.as_str())
        {
            return Err(e);
        }
        if let Err(e) = add_binding(&mut bindings, Action::NextTab, self.next_tab.as_str()) {
            return Err(e);
        }
        if let Err(e) = add_binding(
            &mut bindings,
            Action::PreviousSession,
            self.previous_session.as_str(),
        ) {
            return Err(e);
        }
        if let Err(e) = add_binding(&mut bindings, Action::NextSession, self.next_session.as_str())
        {
            return Err(e);
        }
        if let Err(e) = add_binding(&mut bindings, Action::SendNextKey, self.send_next_key.as_str())
        {
            return Err(e);
        }
        Ok(KeyBindings(bindings))
    }
}

impl PartialBindings {
    /// The spelling of an action's shortcut, if there is one.
    pub open spec fn spelling(&self, action: Action) -> Option<Seq<char>> {
        let given = match action {
            Action::PreviousTab => self.previous_tab,
            Action::NextTab => self.next_tab,
            Action::PreviousSession => self.previous_session,
            Action::NextSession => self.next_session,
            Action::SendNextKey => self.send_next_key,
        };
        match given {
            Some(text) => Some(text@),
            None => None,
        }
    }
}

/// Shortcuts and what they do.
#[derive(Clone, Debug)]
pub struct KeyBindings(pub Vec<(Action, Shortcut)>);

impl View for KeyBindings {
    type V = Seq<(Action, ShortcutView)>;

    open spec fn view(&self) -> Seq<(Action, ShortcutView)> {
        bindings_view(self.0@)
    }
}

impl Default for KeyBindings {
    fn default() -> (res: Self)
        ensures
            res@ == laws::default_bindings(),
    {
        let config = BindingsConfig::default();
        proof {
            laws::law_defaults_resolve();
            let defaults = entries_of(|action: Action| default_spelling(action));
            assert(config.spelling(Action::PreviousTab) == default_spelling(Action::PreviousTab));
            assert(config.spelling(Action::NextTab) == default_spelling(Action::NextTab));
            assert(config.spelling(Action::PreviousSession) == default_spelling(
                Action::PreviousSession,
            ));
            assert(config.spelling(Action::NextSession) == default_spelling(Action::NextSession));
            assert(config.spelling(Action::SendNextKey) == default_spelling(Action::SendNextKey));
            assert(config.entries() =~= defaults);
        }
        config.resolve().unwrap()
    }
}

/// The action of the first of `bindings` that matches `event`.
pub open spec fn action_for(bindings: Seq<(Action, ShortcutView)>, event: KeyEvent) -> Option<
    Action,
>
    decreases bindings.len(),
{
    if bindings.len() == 0 {
        None
    } else if matched_by(bindings[0].1.event, event) {
        Some(bindings[0].0)
    } else {
        action_for(bindings.skip(1), event)
    }
}

/// The first of `bindings` for `action`.
pub open spec fn shortcut_of(bindings: Seq<(Action, ShortcutView)>, action: Action) -> Option<
    ShortcutView,
>
    decreases bindings.len(),
{
    if bindings.len() == 0 {
        None
    } else if bindings[0].0 == action {
        Some(bindings[0].1)
    } else {
        shortcut_of(bindings.skip(1), action)
    }
}

/// The label of an action's shortcut, or `disabled` where it has none.
pub open spec fn label_of(bindings: Seq<(Action, ShortcutView)>, action: Action) -> Seq<char> {
    match shortcut_of(bindings, action) {
        Some(shortcut) => shortcut.label,
        None => "disabled"@,
    }
}

impl KeyBindings {
    /// What `event` does: the action of the first shortcut that matches it.
    pub fn action(&self, event: KeyEvent) -> (res: Option<Action>)
        ensures
            res == action_for(self@, event),
    {
        let mut i: usize = 0;
        assert(self@.skip(0) == self@);
        while i < self.0.len()
            invariant
                i <= self.0@.len(),
                action_for(self@, event) == action_for(self@.skip(i as int), event),
            decreases self.0@.len() - i,
        {
            if self.0[i].1.matches(event) {
                return Some(self.0[i].0);
            }
            assert(self@.skip(i as int).skip(1) == self@.skip(i + 1));
            i += 1;
        }
        None
    }

    /// The shortcut of `action`.
    pub fn get(&self, action: Action) -> (res: Option<&Shortcut>)
        ensures
            match res {
                Some(shortcut) => shortcut_of(self@, action) == Some(shortcut@),
                None => shortcut_of(self@, action) is None,
            },
    {
        let mut i: usize = 0;
        assert(self@.skip(0) == self@);
        while i < self.0.len()
            invariant
                i <= self.0@.len(),
                shortcut_of(self@, action) == shortcut_of(self@.skip(i as int), action),
            decreases self.0@.len() - i,
        {
            if self.0[i].0 == action {
                return Some(&self.0[i].1);
            }
            assert(self@.skip(i as int).skip(1) == self@.skip(i + 1));
            i += 1;
        }
        None
    }

    /// The label of the shortcut of `action`, or `disabled`.
    pub fn label(&self, action: Action) -> (res: &str)
        ensures
            res@ == label_of(self@, action),
    {
        match self.get(action) {
            Some(shortcut) => shortcut.label.as_str(),
            None => "disabled",
        }
    }
}

/// The one-shot state of a quoted key: set once the quoting shortcut is
/// pressed, until the next key.
#[derive(Debug)]
pub struct KeyRouter {
    pub pending: bool,
}

impl Default for KeyRouter {
    fn default() -> (res: Self)
        ensures
            !res.pending,
    {
        KeyRouter { pending: false }
    }
}

/// Where a key event goes.
#[derive(Debug, PartialEq, Eq, Structural)]
pub enum Route {
    /// Nowhere.
    Ignore,
    /// The next key is to be quoted.
    Arm,
    /// To the application, past all shortcuts.
    Quoted,
    /// To an action.
    Action(Action),
    /// To the application.
    Forward,
}

/// Where `event` goes, and whether a quoted key is pending afterwards.
pub open spec fn routed(
    pending: bool,
    bindings: Seq<(Action, ShortcutView)>,
    event: KeyEvent,
) -> (Route, bool) {
    if event.kind == KeyEventKind::Release {
        (Route::Ignore, pending)
    } else if pending {
        (Route::Quoted, false)
    } else {
        match action_for(bindings, event) {
            Some(Action::SendNextKey) => (Route::Arm, true),
            Some(action) => (Route::Action(action), false),
            None => (Route::Forward, false),
        }
    }
}

impl KeyRouter {
    /// Routes one key event. A release is ignored; the key after the quoting
    /// shortcut is quoted; other keys go to their action or are forwarded.
    pub fn route(&mut self, bindings: &KeyBindings, event: KeyEvent) -> (res: Route)
        ensures
            (res, final(self).pending) == routed(old(self).pending, bindings@, event),
    {
        if event.kind == KeyEventKind::Release {
            return Route::Ignore;
        }
        if self.pending {
            self.pending = false;
            return Route::Quoted;
        }
        match bindings.action(event) {
            Some(Action::SendNextKey) => {
                self.pending = true;
                Route::Arm
            },
            Some(action) => Route::Action(action),
            None => Route::Forward,
        }
    }
}

} // verus!
