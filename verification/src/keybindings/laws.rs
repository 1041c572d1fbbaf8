//! Laws of shortcuts, bindings and the key router.

use crate::key::{KeyCode, KeyEvent, KeyEventKind, KeyModifiers};
use crate::keybindings;
use crate::keybindings::{Action, Route, ShortcutView};
use crate::text;
use vstd::prelude::*;

verus! {

/// Whether a key with these modifiers can be a shortcut: an arrow or F1 to F12
/// with any of Ctrl, Alt and Shift, or a letter with Ctrl or Alt and without
/// Shift, but not Ctrl with `h`, `i`, `j` or `m`.
pub open spec fn nameable(code: KeyCode, modifiers: KeyModifiers) -> bool {
    &&& !modifiers.super_key && !modifiers.hyper && !modifiers.meta
    &&& match code {
        KeyCode::Left => true,
        KeyCode::Right => true,
        KeyCode::Up => true,
        KeyCode::Down => true,
        KeyCode::F(n) => 1 <= n <= 12,
        KeyCode::Char(c) => {
            &&& 'a' <= c <= 'z'
            &&& modifiers.control || modifiers.alt
            &&& !modifiers.shift
            &&& modifiers.control ==> c != 'h' && c != 'i' && c != 'j' && c != 'm'
        },
        _ => false,
    }
}

proof fn lemma_named_modifiers(names: Seq<Seq<char>>)
    ensures
        keybindings::modifiers_named(names) matches Some(m) ==> !m.super_key && !m.hyper
            && !m.meta,
    decreases names.len(),
{
    if names.len() > 0 {
        lemma_named_modifiers(names.drop_last());
    }
}

/// Whatever the spelling, a shortcut is a key that can be one, under the two
/// names that this key has.
pub proof fn law_parsed_shortcuts_are_canonical(value: Seq<char>)
    ensures
        keybindings::parsed(value) matches Ok(Some(shortcut)) ==> {
            &&& nameable(shortcut.event.code, shortcut.event.modifiers)
            &&& shortcut == keybindings::shortcut_for(
                shortcut.event.code,
                shortcut.event.modifiers,
            )
            &&& shortcut.event == KeyEvent::new(shortcut.event.code, shortcut.event.modifiers)
        },
{
    let value = text::trimmed(value);
    let parts = text::pieces(value, text::Separator::Exactly('+')).map_values(
        |p: Seq<char>| text::trimmed(p),
    );
    lemma_named_modifiers(parts.drop_last());
}

/// Of keys that can be shortcuts, only the same are equal: `==` on them tells
/// what their fields tell.
pub proof fn law_shortcut_keys_are_equal_by_field(
    a: KeyCode,
    a_modifiers: KeyModifiers,
    b: KeyCode,
    b_modifiers: KeyModifiers,
)
    requires
        nameable(a, a_modifiers),
        nameable(b, b_modifiers),
        KeyEvent::new(a, a_modifiers).normalized() == KeyEvent::new(b, b_modifiers).normalized(),
    ensures
        a == b,
        a_modifiers == b_modifiers,
{
}

/// The names of modifiers that a label gives.
spec fn modifier_names(modifiers: KeyModifiers) -> Seq<Seq<char>> {
    (if modifiers.control {
        seq!["Ctrl"@]
    } else {
        seq![]
    }) + (if modifiers.alt {
        seq!["Alt"@]
    } else {
        seq![]
    }) + (if modifiers.shift {
        seq!["Shift"@]
    } else {
        seq![]
    })
}

proof fn lemma_modifier_literals()
    ensures
        text::lower("Ctrl"@) == "ctrl"@,
        text::lower("Alt"@) == "alt"@,
        text::lower("Shift"@) == "shift"@,
        "Ctrl+"@ == "Ctrl"@.push('+'),
        "Alt+"@ == "Alt"@.push('+'),
        "Shift+"@ == "Shift"@.push('+'),
        "ctrl"@ != "alt"@,
        "ctrl"@ != "option"@,
        "ctrl"@ != "shift"@,
        "control"@ != "alt"@,
        "control"@ != "option"@,
        "control"@ != "shift"@,
        "alt"@ != "shift"@,
        "option"@ != "shift"@,
{
    reveal_strlit("Ctrl");
    reveal_strlit("Alt");
    reveal_strlit("Shift");
    reveal_strlit("Ctrl+");
    reveal_strlit("Alt+");
    reveal_strlit("Shift+");
    reveal_strlit("ctrl");
    reveal_strlit("control");
    reveal_strlit("alt");
    reveal_strlit("option");
    reveal_strlit("shift");
    assert(text::lower("Ctrl"@) =~= "ctrl"@);
    assert(text::lower("Alt"@) =~= "alt"@);
    assert(text::lower("Shift"@) =~= "shift"@);
    assert("Ctrl+"@ =~= "Ctrl"@.push('+'));
    assert("Alt+"@ =~= "Alt"@.push('+'));
    assert("Shift+"@ =~= "Shift"@.push('+'));
    assert("ctrl"@[0] != "alt"@[0]);
    assert("ctrl"@[0] != "option"@[0]);
    assert("ctrl"@[0] != "shift"@[0]);
    assert("control"@[0] != "alt"@[0]);
    assert("control"@[0] != "option"@[0]);
    assert("control"@[0] != "shift"@[0]);
    assert("alt"@[0] != "shift"@[0]);
    assert("option"@[0] != "shift"@[0]);
}

proof fn lemma_modifier_names(modifiers: KeyModifiers)
    requires
        !modifiers.super_key && !modifiers.hyper && !modifiers.meta,
    ensures
        keybindings::modifiers_named(modifier_names(modifiers)) == Some(modifiers),
{
    lemma_modifier_literals();
    reveal_with_fuel(keybindings::modifiers_named, 4);
    let names = modifier_names(modifiers);
    let none = KeyModifiers::none();
    let c = KeyModifiers { control: modifiers.control, ..none };
    let ca = KeyModifiers { alt: modifiers.alt, ..c };
    let n1 = modifier_names(c);
    let n2 = modifier_names(ca);
    assert(keybindings::modifiers_named(n1) == Some(c)) by {
        if modifiers.control {
            assert(n1 =~= seq!["Ctrl"@]);
            assert(n1.drop_last() =~= Seq::<Seq<char>>::empty());
        } else {
            assert(n1 =~= Seq::<Seq<char>>::empty());
        }
    }
    assert(keybindings::modifiers_named(n2) == Some(ca)) by {
        if modifiers.alt {
            assert(n2 =~= n1.push("Alt"@));
            assert(n2.drop_last() =~= n1);
        } else {
            assert(n2 =~= n1);
        }
    }
    if modifiers.shift {
        assert(names =~= n2.push("Shift"@));
        assert(names.drop_last() =~= n2);
    } else {
        assert(names =~= n2);
    }
}

/// Whether `c` is an ASCII letter or digit.
pub open spec fn plain(c: char) -> bool {
    'a' <= c <= 'z' || 'A' <= c <= 'Z' || '0' <= c <= '9'
}

/// Whether `s` is a non-empty run of ASCII letters and digits.
pub open spec fn plain_word(s: Seq<char>) -> bool {
    &&& s.len() > 0
    &&& forall|i: int| 0 <= i < s.len() ==> plain(#[trigger] s[i])
}

proof fn lemma_plain_word(s: Seq<char>)
    requires
        plain_word(s),
    ensures
        text::pieces(s, text::Separator::Exactly('+')) == seq![s],
        text::trimmed(s) == s,
{
    assert(plain(s[0]) && plain(s.last()));
    text::lemmas::lemma_trimmed_unchanged(s);
    assert forall|i: int| 0 <= i < s.len() implies !text::Separator::Exactly('+').separates(
        #[trigger] s[i],
    ) by {
        assert(plain(s[i]));
    }
    text::lemmas::lemma_pieces_of_unseparated(s, text::Separator::Exactly('+'));
}

/// The name of a key is one word, and names the key.
pub proof fn lemma_key_name(code: KeyCode, modifiers: KeyModifiers, quoted: Seq<char>)
    requires
        nameable(code, modifiers),
    ensures
        plain_word(keybindings::key_name(code)),
        keybindings::key_named(
            text::lower(keybindings::key_name(code)),
            modifiers,
            quoted,
        ) == Ok::<KeyCode, Seq<char>>(code),
        !(code is Char) ==> text::lower_char(keybindings::key_name(code)[0]) != 'n',
{
    let name = keybindings::key_name(code);
    let lower = text::lower(name);
    reveal_strlit("left");
    reveal_strlit("right");
    reveal_strlit("up");
    reveal_strlit("down");
    reveal_strlit("Left");
    reveal_strlit("Right");
    reveal_strlit("Up");
    reveal_strlit("Down");
    reveal_strlit("F");
    match code {
        KeyCode::Left => {
            assert(lower =~= "left"@);
        },
        KeyCode::Right => {
            assert(lower =~= "right"@);
            assert(lower[0] != "left"@[0]);
        },
        KeyCode::Up => {
            assert(lower =~= "up"@);
            assert(lower[0] != "left"@[0] && lower[0] != "right"@[0]);
        },
        KeyCode::Down => {
            assert(lower =~= "down"@);
            assert(lower[0] != "left"@[0] && lower[0] != "right"@[0] && lower[0] != "up"@[0]);
        },
        KeyCode::F(n) => {
            text::lemmas::lemma_decimal_reads_back(n as nat);
            let digits = text::decimal_text(n as nat);
            assert forall|i: int| 0 <= i < name.len() implies plain(#[trigger] name[i]) by {
                if i > 0 {
                    assert(name[i] == digits[i - 1]);
                    assert(text::is_digit(digits[i - 1]));
                }
            }
            assert forall|i: int| 0 <= i < digits.len() implies lower[i + 1] == #[trigger] digits[i]
                by {
                assert(text::is_digit(digits[i]));
                assert(name[i + 1] == digits[i]);
            }
            assert(lower.skip(1) =~= digits);
            assert(lower[0] == 'f');
            assert(lower[0] != "left"@[0] && lower[0] != "right"@[0] && lower[0] != "up"@[0]
                && lower[0] != "down"@[0]);
        },
        KeyCode::Char(c) => {
            assert(lower =~= seq![c]);
            assert(lower.len() == 1);
            assert(lower.skip(1).len() == 0);
            assert("left"@.len() != 1 && "right"@.len() != 1 && "up"@.len() != 1 && "down"@.len()
                != 1);
        },
        _ => {},
    }
}

/// Putting a modifier before a shortcut puts its name before the pieces.
proof fn lemma_prefixed_pieces(held: bool, prefix: Seq<char>, word: Seq<char>, rest: Seq<char>)
    requires
        plain_word(word),
        prefix == word.push('+'),
    ensures
        text::pieces(
            keybindings::prefix_if(held, prefix) + rest,
            text::Separator::Exactly('+'),
        ) == (if held {
            seq![word]
        } else {
            seq![]
        }) + text::pieces(rest, text::Separator::Exactly('+')),
{
    let plus = text::Separator::Exactly('+');
    if held {
        lemma_plain_word(word);
        text::lemmas::lemma_pieces_around_separator(word, '+', rest, plus);
    } else {
        assert(Seq::<char>::empty() + rest =~= rest);
        assert(Seq::<Seq<char>>::empty() + text::pieces(rest, plus) =~= text::pieces(rest, plus));
    }
}

proof fn lemma_label_pieces(code: KeyCode, modifiers: KeyModifiers)
    requires
        nameable(code, modifiers),
    ensures
        text::pieces(
            keybindings::shortcut_for(code, modifiers).label,
            text::Separator::Exactly('+'),
        ) == modifier_names(modifiers).push(keybindings::key_name(code)),
{
    let plus = text::Separator::Exactly('+');
    let name = keybindings::key_name(code);
    let label = keybindings::shortcut_for(code, modifiers).label;
    let a = keybindings::prefix_if(modifiers.control, "Ctrl+"@);
    let b = keybindings::prefix_if(modifiers.alt, "Alt+"@);
    let c = keybindings::prefix_if(modifiers.shift, "Shift+"@);
    lemma_modifier_literals();
    lemma_key_name(code, modifiers, Seq::empty());
    lemma_plain_word(name);
    reveal_strlit("Ctrl");
    reveal_strlit("Alt");
    reveal_strlit("Shift");
    lemma_prefixed_pieces(modifiers.shift, "Shift+"@, "Shift"@, name);
    lemma_prefixed_pieces(modifiers.alt, "Alt+"@, "Alt"@, c + name);
    lemma_prefixed_pieces(modifiers.control, "Ctrl+"@, "Ctrl"@, b + (c + name));
    assert(label =~= a + (b + (c + name)));
    assert(text::pieces(label, plus) =~= modifier_names(modifiers).push(name));
}

/// The label of every possible shortcut reads back as that shortcut.
pub proof fn law_labels_read_back(code: KeyCode, modifiers: KeyModifiers)
    requires
        nameable(code, modifiers),
    ensures
        keybindings::parsed(keybindings::shortcut_for(code, modifiers).label) == Ok::<
            Option<ShortcutView>,
            Seq<char>,
        >(Some(keybindings::shortcut_for(code, modifiers))),
{
    let plus = text::Separator::Exactly('+');
    let name = keybindings::key_name(code);
    let label = keybindings::shortcut_for(code, modifiers).label;
    let quoted = text::debug_text(label);
    let names = modifier_names(modifiers);
    lemma_modifier_literals();
    lemma_modifier_names(modifiers);
    lemma_key_name(code, modifiers, quoted);
    lemma_label_pieces(code, modifiers);
    lemma_plain_word(name);
    reveal_strlit("Ctrl");
    reveal_strlit("Alt");
    reveal_strlit("Shift");
    reveal_strlit("none");
    lemma_plain_word("Ctrl"@);
    lemma_plain_word("Alt"@);
    lemma_plain_word("Shift"@);
    assert(label.last() == name.last());
    assert(plain(name[0]) && plain(name.last()));
    assert(!text::white_space(label[0]) && text::lower_char(label[0]) != 'n');
    text::lemmas::lemma_trimmed_unchanged(label);
    assert(text::lower(label)[0] != "none"@[0]);
    let parts = text::pieces(label, plus).map_values(|p: Seq<char>| text::trimmed(p));
    assert(parts =~= names.push(name));
    assert(parts.drop_last() =~= names);
}

/// Reading a shortcut gives one that its own label reads as again.
pub proof fn law_parsing_is_stable(value: Seq<char>)
    ensures
        keybindings::parsed(value) matches Ok(Some(shortcut)) ==> keybindings::parsed(
            shortcut.label,
        ) == Ok::<Option<ShortcutView>, Seq<char>>(Some(shortcut)),
{
    law_parsed_shortcuts_are_canonical(value);
    if let Ok(Some(shortcut)) = keybindings::parsed(value) {
        law_labels_read_back(shortcut.event.code, shortcut.event.modifiers);
    }
}

/// The key of an action's default shortcut.
pub open spec fn default_key(action: Action) -> (KeyCode, KeyModifiers) {
    let none = KeyModifiers::none();
    let shift = KeyModifiers { shift: true, ..none };
    let control = KeyModifiers { control: true, ..none };
    match action {
        Action::PreviousTab => (KeyCode::Left, shift),
        Action::NextTab => (KeyCode::Right, shift),
        Action::PreviousSession => (KeyCode::Up, shift),
        Action::NextSession => (KeyCode::Down, shift),
        Action::SendNextKey => (KeyCode::Char('v'), control),
    }
}

/// The default binding of an action.
pub open spec fn default_binding(action: Action) -> (Action, ShortcutView) {
    (action, keybindings::shortcut_for(default_key(action).0, default_key(action).1))
}

/// The default bindings.
pub open spec fn default_bindings() -> Seq<(Action, ShortcutView)> {
    seq![
        default_binding(Action::PreviousTab),
        default_binding(Action::NextTab),
        default_binding(Action::PreviousSession),
        default_binding(Action::NextSession),
        default_binding(Action::SendNextKey),
    ]
}

proof fn lemma_default_spelling(action: Action)
    ensures
        keybindings::parsed(keybindings::default_spelling(action)) == Ok::<
            Option<ShortcutView>,
            Seq<char>,
        >(Some(default_binding(action).1)),
{
    let (code, modifiers) = default_key(action);
    let label = keybindings::shortcut_for(code, modifiers).label;
    reveal_strlit("Shift+Left");
    reveal_strlit("Shift+Right");
    reveal_strlit("Shift+Up");
    reveal_strlit("Shift+Down");
    reveal_strlit("Ctrl+v");
    reveal_strlit("Shift+");
    reveal_strlit("Ctrl+");
    reveal_strlit("Left");
    reveal_strlit("Right");
    reveal_strlit("Up");
    reveal_strlit("Down");
    assert(keybindings::default_spelling(action) =~= label);
    law_labels_read_back(code, modifiers);
}

/// The default spellings resolve: Shift with an arrow for the tabs and the
/// sessions, Ctrl+v to send the next key.
pub proof fn law_defaults_resolve()
    ensures
        keybindings::resolved(
            keybindings::entries_of(
                |action: Action| keybindings::default_spelling(action),
            ),
        ) == Ok::<Seq<(Action, ShortcutView)>, Seq<char>>(default_bindings()),
{
    let entries = keybindings::entries_of(
        |action: Action| keybindings::default_spelling(action),
    );
    let bindings = default_bindings();
    lemma_default_spelling(Action::PreviousTab);
    lemma_default_spelling(Action::NextTab);
    lemma_default_spelling(Action::PreviousSession);
    lemma_default_spelling(Action::NextSession);
    lemma_default_spelling(Action::SendNextKey);
    assert(entries.drop_last() =~= entries.take(4));
    assert(entries.take(4).drop_last() =~= entries.take(3));
    assert(entries.take(3).drop_last() =~= entries.take(2));
    assert(entries.take(2).drop_last() =~= entries.take(1));
    assert(entries.take(1).drop_last() =~= entries.take(0));
    reveal_with_fuel(keybindings::resolved, 6);
    assert(bindings.take(0) =~= Seq::<(Action, ShortcutView)>::empty());
    assert(bindings.take(1) =~= bindings.take(0).push(bindings[0]));
    assert(bindings.take(2) =~= bindings.take(1).push(bindings[1]));
    assert(bindings.take(3) =~= bindings.take(2).push(bindings[2]));
    assert(bindings.take(4) =~= bindings.take(3).push(bindings[3]));
    assert(bindings =~= bindings.take(4).push(bindings[4]));
}

/// The shortcut that a spelling names, if it names one.
pub open spec fn named_shortcut(spelling: Seq<char>) -> Option<ShortcutView> {
    match keybindings::parsed(spelling) {
        Ok(shortcut) => shortcut,
        Err(_) => None,
    }
}

/// Whether the entry at `k` gives `binding`.
pub open spec fn gives(
    entries: Seq<(Action, Seq<char>)>,
    k: int,
    binding: (Action, ShortcutView),
) -> bool {
    &&& 0 <= k < entries.len()
    &&& entries[k].0 == binding.0
    &&& named_shortcut(entries[k].1) == Some(binding.1)
}

/// Whether one of the entries gives `binding`.
pub open spec fn given(entries: Seq<(Action, Seq<char>)>, binding: (Action, ShortcutView)) -> bool {
    exists|k: int| gives(entries, k, binding)
}

/// Whether entries can all be bound: each is a shortcut or disabled, none is
/// reserved, and no two are the same key.
pub open spec fn bindable(entries: Seq<(Action, Seq<char>)>) -> bool {
    &&& forall|k: int|
        0 <= k < entries.len() ==> keybindings::parsed((#[trigger] entries[k]).1) is Ok
    &&& forall|k: int, binding: (Action, ShortcutView)| #[trigger]
        gives(entries, k, binding) ==> !keybindings::reserved(binding.1.event)
    &&& forall|j: int, k: int, a: (Action, ShortcutView), b: (Action, ShortcutView)|
        j != k && #[trigger] gives(entries, j, a) && #[trigger] gives(entries, k, b)
            ==> a.1.event != b.1.event
}

/// Whether `bindings` holds what `entries` give, and nothing else, and each
/// key once.
pub open spec fn holds_entries(
    bindings: Seq<(Action, ShortcutView)>,
    entries: Seq<(Action, Seq<char>)>,
) -> bool {
    &&& forall|i: int|
        0 <= i < bindings.len() ==> given(entries, #[trigger] bindings[i])
    &&& forall|k: int, binding: (Action, ShortcutView)| #[trigger]
        gives(entries, k, binding) ==> bindings.contains(binding)
    &&& forall|i: int, j: int|
        0 <= i < j < bindings.len() ==> (#[trigger] bindings[i]).1.event != (
        #[trigger] bindings[j]).1.event
}

/// What the entries before the last give, all of them give.
proof fn lemma_gives_before_last(
    entries: Seq<(Action, Seq<char>)>,
    k: int,
    binding: (Action, ShortcutView),
)
    requires
        entries.len() > 0,
    ensures
        gives(entries.drop_last(), k, binding) ==> gives(entries, k, binding),
        gives(entries, k, binding) && k != entries.len() - 1 ==> gives(
            entries.drop_last(),
            k,
            binding,
        ),
{
}

proof fn lemma_bindable_before_last(entries: Seq<(Action, Seq<char>)>)
    requires
        entries.len() > 0,
        bindable(entries),
    ensures
        bindable(entries.drop_last()),
{
    let init = entries.drop_last();
    assert forall|k: int| 0 <= k < init.len() implies keybindings::parsed((#[trigger] init[k]).1)
        is Ok by {
        assert(init[k] == entries[k]);
    }
    assert forall|k: int, binding: (Action, ShortcutView)| #[trigger]
        gives(init, k, binding) implies !keybindings::reserved(binding.1.event) by {
        lemma_gives_before_last(entries, k, binding);
    }
    assert forall|j: int, k: int, a: (Action, ShortcutView), b: (Action, ShortcutView)|
        j != k && #[trigger] gives(init, j, a) && #[trigger] gives(init, k, b) implies a.1.event
        != b.1.event by {
        lemma_gives_before_last(entries, j, a);
        lemma_gives_before_last(entries, k, b);
    }
}

/// One more entry that is disabled, or new, beside entries that can be bound.
proof fn lemma_bindable_extends(entries: Seq<(Action, Seq<char>)>)
    requires
        entries.len() > 0,
        bindable(entries.drop_last()),
        keybindings::parsed(entries.last().1) is Ok,
        named_shortcut(entries.last().1) matches Some(shortcut) ==> {
            &&& !keybindings::reserved(shortcut.event)
            &&& forall|k: int, binding: (Action, ShortcutView)| #[trigger]
                gives(entries.drop_last(), k, binding) ==> binding.1.event != shortcut.event
        },
    ensures
        bindable(entries),
{
    let init = entries.drop_last();
    assert forall|k: int| 0 <= k < entries.len() implies keybindings::parsed(
        (#[trigger] entries[k]).1,
    ) is Ok by {
        if k < init.len() {
            assert(init[k] == entries[k]);
        }
    }
    assert forall|k: int, binding: (Action, ShortcutView)| #[trigger]
        gives(entries, k, binding) implies !keybindings::reserved(binding.1.event) by {
        lemma_gives_before_last(entries, k, binding);
    }
    assert forall|j: int, k: int, a: (Action, ShortcutView), b: (Action, ShortcutView)|
        j != k && #[trigger] gives(entries, j, a) && #[trigger] gives(
            entries,
            k,
            b,
        ) implies a.1.event != b.1.event by {
        lemma_gives_before_last(entries, j, a);
        lemma_gives_before_last(entries, k, b);
    }
}

/// A shortcut that is a press of a key matches the events that are equal to it.
proof fn lemma_named_shortcuts_are_presses(
    entries: Seq<(Action, Seq<char>)>,
    k: int,
    binding: (Action, ShortcutView),
)
    requires
        gives(entries, k, binding),
    ensures
        binding.1.event == KeyEvent::new(binding.1.event.code, binding.1.event.modifiers),
{
    law_parsed_shortcuts_are_canonical(entries[k].1);
}

/// A key is taken by bindings if and only if an entry gives it.
proof fn lemma_taken(
    bindings: Seq<(Action, ShortcutView)>,
    entries: Seq<(Action, Seq<char>)>,
    event: KeyEvent,
)
    requires
        holds_entries(bindings, entries),
        event == KeyEvent::new(event.code, event.modifiers),
    ensures
        keybindings::taken(bindings, event) ==> exists|k: int, binding: (Action, ShortcutView)|
            #[trigger] gives(entries, k, binding) && binding.1.event == event,
        !keybindings::taken(bindings, event) ==> forall|k: int, binding: (Action, ShortcutView)|
            #[trigger] gives(entries, k, binding) ==> binding.1.event != event,
{
    if keybindings::taken(bindings, event) {
        let i = choose|i: int|
            0 <= i < bindings.len() && keybindings::matched_by(
                (#[trigger] bindings[i]).1.event,
                event,
            );
        let k = choose|k: int| gives(entries, k, bindings[i]);
        lemma_named_shortcuts_are_presses(entries, k, bindings[i]);
        assert(gives(entries, k, bindings[i]) && bindings[i].1.event == event);
    } else {
        assert forall|k: int, binding: (Action, ShortcutView)| #[trigger]
            gives(entries, k, binding) implies binding.1.event != event by {
            assert(bindings.contains(binding));
            let i = choose|i: int| 0 <= i < bindings.len() && bindings[i] == binding;
            assert(!keybindings::matched_by(bindings[i].1.event, event));
        }
    }
}

/// Bindings that hold the entries before the last, and the last one's.
proof fn lemma_holds_one_more(
    bindings: Seq<(Action, ShortcutView)>,
    entries: Seq<(Action, Seq<char>)>,
    shortcut: ShortcutView,
)
    requires
        entries.len() > 0,
        holds_entries(bindings, entries.drop_last()),
        named_shortcut(entries.last().1) == Some(shortcut),
        !keybindings::taken(bindings, shortcut.event),
        shortcut.event == KeyEvent::new(shortcut.event.code, shortcut.event.modifiers),
    ensures
        holds_entries(bindings.push((entries.last().0, shortcut)), entries),
{
    let init = entries.drop_last();
    let more = bindings.push((entries.last().0, shortcut));
    lemma_taken(bindings, init, shortcut.event);
    assert forall|i: int| 0 <= i < more.len() implies given(entries, #[trigger] more[i]) by {
        if i < bindings.len() {
            assert(more[i] == bindings[i]);
            let k = choose|k: int| gives(init, k, bindings[i]);
            lemma_gives_before_last(entries, k, bindings[i]);
            assert(gives(entries, k, more[i]));
        } else {
            assert(gives(entries, entries.len() - 1, more[i]));
        }
    }
    assert forall|k: int, binding: (Action, ShortcutView)| #[trigger]
        gives(entries, k, binding) implies more.contains(binding) by {
        if k == entries.len() - 1 {
            assert(more[bindings.len() as int] == binding);
        } else {
            lemma_gives_before_last(entries, k, binding);
            assert(bindings.contains(binding));
            let i = choose|i: int| 0 <= i < bindings.len() && bindings[i] == binding;
            assert(more[i] == binding);
        }
    }
    assert forall|i: int, j: int| 0 <= i < j < more.len() implies (#[trigger] more[i]).1.event != (
    #[trigger] more[j]).1.event by {
        assert(more[i] == bindings[i]);
        if j < bindings.len() {
            assert(more[j] == bindings[j]);
        } else {
            let k = choose|k: int| gives(init, k, bindings[i]);
            assert(gives(init, k, bindings[i]));
        }
    }
}

/// Bindings that hold the entries before the last, where the last is disabled.
proof fn lemma_holds_disabled(
    bindings: Seq<(Action, ShortcutView)>,
    entries: Seq<(Action, Seq<char>)>,
)
    requires
        entries.len() > 0,
        holds_entries(bindings, entries.drop_last()),
        named_shortcut(entries.last().1) is None,
    ensures
        holds_entries(bindings, entries),
{
    let init = entries.drop_last();
    assert forall|i: int| 0 <= i < bindings.len() implies given(
        entries,
        #[trigger] bindings[i],
    ) by {
        let k = choose|k: int| gives(init, k, bindings[i]);
        lemma_gives_before_last(entries, k, bindings[i]);
        assert(gives(entries, k, bindings[i]));
    }
    assert forall|k: int, binding: (Action, ShortcutView)| #[trigger]
        gives(entries, k, binding) implies bindings.contains(binding) by {
        lemma_gives_before_last(entries, k, binding);
    }
}

/// Entries resolve if and only if they can all be bound, and then to what they
/// give.
pub proof fn law_resolves_what_can_be_bound(entries: Seq<(Action, Seq<char>)>)
    ensures
        keybindings::resolved(entries) is Ok <==> bindable(entries),
        keybindings::resolved(entries) matches Ok(bindings) ==> holds_entries(bindings, entries),
    decreases entries.len(),
{
    if entries.len() > 0 {
        let init = entries.drop_last();
        let last = entries.len() - 1;
        let action = entries.last().0;
        law_resolves_what_can_be_bound(init);
        if bindable(entries) {
            lemma_bindable_before_last(entries);
        }
        if let Ok(before) = keybindings::resolved(init) {
            match keybindings::parsed(entries.last().1) {
                Err(_) => {
                    assert(keybindings::parsed(entries[last].1) is Err);
                },
                Ok(None) => {
                    lemma_bindable_extends(entries);
                    lemma_holds_disabled(before, entries);
                },
                Ok(Some(shortcut)) => {
                    law_parsed_shortcuts_are_canonical(entries.last().1);
                    lemma_taken(before, init, shortcut.event);
                    assert(gives(entries, last, (action, shortcut)));
                    if keybindings::reserved(shortcut.event) {
                    } else if keybindings::taken(before, shortcut.event) {
                        let (k, other) = choose|k: int, other: (Action, ShortcutView)| #[trigger]
                            gives(init, k, other) && other.1.event == shortcut.event;
                        lemma_gives_before_last(entries, k, other);
                        assert(gives(entries, k, other));
                    } else {
                        lemma_bindable_extends(entries);
                        lemma_holds_one_more(before, entries, shortcut);
                    }
                },
            }
        }
    } else {
        assert(bindable(entries));
    }
}

/// In a resolved configuration, an action has the shortcut that its spelling
/// names, and an event triggers an action if and only if it is a press of that
/// very key with exactly its modifiers. A key that no spelling names triggers
/// nothing.
pub proof fn law_bindings_match_exactly(
    spelling: spec_fn(Action) -> Seq<char>,
    action: Action,
    event: KeyEvent,
)
    requires
        keybindings::resolved(keybindings::entries_of(spelling)) is Ok,
    ensures
        ({
            let bindings = keybindings::resolved(keybindings::entries_of(spelling))->Ok_0;
            let named = keybindings::parsed(spelling(action))->Ok_0;
            &&& keybindings::parsed(spelling(action)) is Ok
            &&& keybindings::shortcut_of(bindings, action) == named
            &&& keybindings::action_for(bindings, event) == Some(action) <==> (
            named matches Some(shortcut) && keybindings::matched_by(shortcut.event, event))
        }),
{
    let entries = keybindings::entries_of(spelling);
    let bindings = keybindings::resolved(entries)->Ok_0;
    law_resolves_what_can_be_bound(entries);
    let k = action_index(action);
    assert(entries[k] == (action, spelling(action)));
    lemma_shortcut_of(bindings, action);
    lemma_action_for(bindings, event);
    lemma_given_shortcut(bindings, spelling, action);
    if let Some(found) = keybindings::action_for(bindings, event) {
        let m = choose|m: int|
            0 <= m < bindings.len() && (#[trigger] bindings[m]).0 == found
                && keybindings::matched_by(bindings[m].1.event, event);
        lemma_bound_key(bindings, spelling, m);
        if let Some(shortcut) = named_shortcut(spelling(action)) {
            if keybindings::matched_by(shortcut.event, event) {
                let binding = (action, shortcut);
                assert(gives(entries, k, binding));
                lemma_named_shortcuts_are_presses(entries, k, binding);
                assert(bindings.contains(binding));
                let i = choose|i: int| 0 <= i < bindings.len() && bindings[i] == binding;
                assert(bindings[m].1.event == bindings[i].1.event);
                assert(m == i);
            }
        }
    } else {
        if let Some(shortcut) = named_shortcut(spelling(action)) {
            if keybindings::matched_by(shortcut.event, event) {
                assert(gives(entries, k, (action, shortcut)));
                assert(bindings.contains((action, shortcut)));
                let i = choose|i: int|
                    0 <= i < bindings.len() && bindings[i] == (action, shortcut);
                assert(keybindings::matched_by(bindings[i].1.event, event));
            }
        }
    }
}

/// A binding is of the key that the spelling of its action names.
proof fn lemma_bound_key(
    bindings: Seq<(Action, ShortcutView)>,
    spelling: spec_fn(Action) -> Seq<char>,
    i: int,
)
    requires
        holds_entries(bindings, keybindings::entries_of(spelling)),
        0 <= i < bindings.len(),
    ensures
        named_shortcut(spelling(bindings[i].0)) == Some(bindings[i].1),
        bindings[i].1.event.kind == KeyEventKind::Press,
{
    let entries = keybindings::entries_of(spelling);
    let k = choose|k: int| gives(entries, k, bindings[i]);
    lemma_named_shortcuts_are_presses(entries, k, bindings[i]);
    assert(entries[k].1 == spelling(entries[k].0));
}

proof fn lemma_given_shortcut(
    bindings: Seq<(Action, ShortcutView)>,
    spelling: spec_fn(Action) -> Seq<char>,
    action: Action,
)
    requires
        holds_entries(bindings, keybindings::entries_of(spelling)),
    ensures
        keybindings::shortcut_of(bindings, action) == named_shortcut(spelling(action)),
{
    let entries = keybindings::entries_of(spelling);
    let k = action_index(action);
    assert(entries[k] == (action, spelling(action)));
    lemma_shortcut_of(bindings, action);
    match keybindings::shortcut_of(bindings, action) {
        Some(shortcut) => {
            let i = choose|i: int|
                0 <= i < bindings.len() && #[trigger] bindings[i] == (action, shortcut);
            lemma_bound_key(bindings, spelling, i);
        },
        None => {
            if let Some(shortcut) = named_shortcut(spelling(action)) {
                assert(gives(entries, k, (action, shortcut)));
                assert(bindings.contains((action, shortcut)));
                let i = choose|i: int|
                    0 <= i < bindings.len() && bindings[i] == (action, shortcut);
                assert(bindings[i].0 == action);
            }
        },
    }
}

/// The place of an action among the entries of a configuration.
spec fn action_index(action: Action) -> int {
    match action {
        Action::PreviousTab => 0,
        Action::NextTab => 1,
        Action::PreviousSession => 2,
        Action::NextSession => 3,
        Action::SendNextKey => 4,
    }
}

proof fn lemma_shortcut_of(bindings: Seq<(Action, ShortcutView)>, action: Action)
    ensures
        match keybindings::shortcut_of(bindings, action) {
            Some(shortcut) => exists|i: int|
                0 <= i < bindings.len() && #[trigger] bindings[i] == (action, shortcut),
            None => forall|i: int| 0 <= i < bindings.len() ==> (#[trigger] bindings[i]).0 != action,
        },
    decreases bindings.len(),
{
    if bindings.len() > 0 {
        let rest = bindings.skip(1);
        lemma_shortcut_of(rest, action);
        if bindings[0].0 == action {
            assert(bindings[0] == (action, bindings[0].1));
        } else {
            match keybindings::shortcut_of(rest, action) {
                Some(shortcut) => {
                    let i = choose|i: int|
                        0 <= i < rest.len() && #[trigger] rest[i] == (action, shortcut);
                    assert(bindings[i + 1] == (action, shortcut));
                },
                None => {
                    assert forall|i: int| 0 <= i < bindings.len() implies (
                    #[trigger] bindings[i]).0 != action by {
                        if i > 0 {
                            assert(rest[i - 1] == bindings[i]);
                        }
                    }
                },
            }
        }
    }
}

proof fn lemma_action_for(bindings: Seq<(Action, ShortcutView)>, event: KeyEvent)
    ensures
        match keybindings::action_for(bindings, event) {
            Some(action) => exists|i: int|
                0 <= i < bindings.len() && (#[trigger] bindings[i]).0 == action
                    && keybindings::matched_by(bindings[i].1.event, event),
            None => !keybindings::taken(bindings, event),
        },
    decreases bindings.len(),
{
    if bindings.len() > 0 {
        let rest = bindings.skip(1);
        lemma_action_for(rest, event);
        if keybindings::matched_by(bindings[0].1.event, event) {
        } else {
            match keybindings::action_for(rest, event) {
                Some(action) => {
                    let i = choose|i: int|
                        0 <= i < rest.len() && (#[trigger] rest[i]).0 == action
                            && keybindings::matched_by(rest[i].1.event, event);
                    assert(bindings[i + 1] == rest[i]);
                },
                None => {
                    assert forall|i: int|
                        0 <= i < bindings.len() implies !keybindings::matched_by(
                        (#[trigger] bindings[i]).1.event,
                        event,
                    ) by {
                        if i > 0 {
                            assert(rest[i - 1] == bindings[i]);
                        }
                    }
                },
            }
        }
    }
}

/// No configuration binds a reserved key: Ctrl with `q`, `b` or `l` always
/// reaches the session manager.
pub proof fn law_reserved_keys_stay_free(spelling: spec_fn(Action) -> Seq<char>, event: KeyEvent)
    requires
        keybindings::resolved(keybindings::entries_of(spelling)) is Ok,
        keybindings::reserved(event),
    ensures
        keybindings::action_for(
            keybindings::resolved(keybindings::entries_of(spelling))->Ok_0,
            event,
        ) is None,
{
    let entries = keybindings::entries_of(spelling);
    let bindings = keybindings::resolved(entries)->Ok_0;
    law_resolves_what_can_be_bound(entries);
    lemma_action_for(bindings, event);
    if let Some(action) = keybindings::action_for(bindings, event) {
        let m = choose|m: int|
            0 <= m < bindings.len() && (#[trigger] bindings[m]).0 == action
                && keybindings::matched_by(bindings[m].1.event, event);
        let k = choose|k: int| gives(entries, k, bindings[m]);
        assert(!keybindings::reserved(bindings[m].1.event));
    }
}

/// Quoting is one-shot: the quoting shortcut arms the router; releases do not
/// disturb it; the next press, whatever key it is, is quoted; after that the
/// router is as it was before.
pub proof fn law_quote_is_one_shot(
    bindings: Seq<(Action, ShortcutView)>,
    quote: KeyEvent,
    release: KeyEvent,
    key: KeyEvent,
)
    requires
        keybindings::action_for(bindings, quote) == Some(Action::SendNextKey),
        quote.kind != KeyEventKind::Release,
        release.kind == KeyEventKind::Release,
        key.kind != KeyEventKind::Release,
    ensures
        keybindings::routed(false, bindings, quote) == (Route::Arm, true),
        keybindings::routed(true, bindings, release) == (Route::Ignore, true),
        keybindings::routed(false, bindings, release) == (Route::Ignore, false),
        keybindings::routed(true, bindings, key) == (Route::Quoted, false),
{
}

proof fn lemma_modifiers_lower(names: Seq<Seq<char>>)
    ensures
        keybindings::modifiers_named(names.map_values(|n: Seq<char>| text::lower(n)))
            == keybindings::modifiers_named(names),
    decreases names.len(),
{
    let lower = |n: Seq<char>| text::lower(n);
    if names.len() > 0 {
        lemma_modifiers_lower(names.drop_last());
        text::lemmas::lemma_lower_again(names.last());
        assert(names.map_values(lower).drop_last() =~= names.drop_last().map_values(lower));
    }
}

proof fn lemma_parsing_lower(value: Seq<char>)
    ensures
        keybindings::parsed(value) is Ok == keybindings::parsed(text::lower(value)) is Ok,
        keybindings::parsed(value) is Ok ==> keybindings::parsed(value) == keybindings::parsed(
            text::lower(value),
        ),
{
    let plus = text::Separator::Exactly('+');
    let lower = |n: Seq<char>| text::lower(n);
    let trim = |p: Seq<char>| text::trimmed(p);
    let word = text::trimmed(value);
    let pieces = text::pieces(word, plus);
    let parts = pieces.map_values(trim);
    text::lemmas::lemma_trimmed_lower(value);
    text::lemmas::lemma_lower_again(word);
    text::lemmas::lemma_pieces_lower(word);
    text::lemma_pieces_nonempty(word, plus);
    let lowered = text::pieces(text::lower(word), plus).map_values(trim);
    assert forall|i: int| 0 <= i < parts.len() implies lowered[i] == text::lower(parts[i]) by {
        text::lemmas::lemma_trimmed_lower(pieces[i]);
    }
    assert(lowered.drop_last() =~= parts.drop_last().map_values(lower));
    assert(lowered.last() == text::lower(parts.last()));
    lemma_modifiers_lower(parts.drop_last());
    text::lemmas::lemma_lower_again(parts.last());
}

/// Upper and lower case make no difference to whether a text names a shortcut,
/// nor to which.
pub proof fn law_parsing_ignores_case(a: Seq<char>, b: Seq<char>)
    requires
        text::lower(a) == text::lower(b),
    ensures
        keybindings::parsed(a) is Ok == keybindings::parsed(b) is Ok,
        keybindings::parsed(a) is Ok ==> keybindings::parsed(a) == keybindings::parsed(b),
{
    lemma_parsing_lower(a);
    lemma_parsing_lower(b);
}

} // verus!
