//! What shortcuts mean: how a spelling is read, which spellings can be bound
//! together, and where a key goes.

use crate::key::{KeyCode, KeyEvent, KeyEventKind, KeyEventState, KeyModifiers};
use crate::keybindings;
use crate::keybindings::{
    Action, BindingsConfig, KeyBindings, PartialBindings, Route, Shortcut, ShortcutView,
};
use crate::text;
use vstd::prelude::*;

verus! {

/// What is spelled between plus signs, in lower case and without white space
/// round it.
pub open spec fn spelled(value: Seq<char>) -> Seq<Seq<char>> {
    text::pieces(text::trimmed(value), text::Separator::Exactly('+')).map_values(
        |p: Seq<char>| text::lower(text::trimmed(p)),
    )
}

/// Whether `value` spells no shortcut: it is blank, or `none`.
pub open spec fn spells_none(value: Seq<char>) -> bool {
    text::trimmed(value).len() == 0 || text::lower(text::trimmed(value)) == "none"@
}

/// Whether one of the words before the last is `a` or `b`.
pub open spec fn spells(words: Seq<Seq<char>>, a: Seq<char>, b: Seq<char>) -> bool {
    exists|i: int| 0 <= i < words.len() - 1 && ((#[trigger] words[i]) == a || words[i] == b)
}

/// Whether a word is the name of a modifier.
pub open spec fn names_modifier(word: Seq<char>) -> bool {
    word == "ctrl"@ || word == "control"@ || word == "alt"@ || word == "option"@ || word
        == "shift"@
}

/// Whether all words before the last are names of modifiers.
pub open spec fn modifiers_known(words: Seq<Seq<char>>) -> bool {
    forall|i: int| 0 <= i < words.len() - 1 ==> names_modifier(#[trigger] words[i])
}

/// The modifiers that the words before the last spell, in any order and any
/// number of times.
pub open spec fn spelled_modifiers(words: Seq<Seq<char>>) -> KeyModifiers {
    KeyModifiers {
        control: spells(words, "ctrl"@, "control"@),
        alt: spells(words, "alt"@, "option"@),
        shift: spells(words, "shift"@, "shift"@),
        super_key: false,
        hyper: false,
        meta: false,
    }
}

proof fn lemma_modifier_words()
    ensures
        "ctrl"@ != "alt"@,
        "ctrl"@ != "option"@,
        "ctrl"@ != "shift"@,
        "control"@ != "alt"@,
        "control"@ != "option"@,
        "control"@ != "shift"@,
        "alt"@ != "shift"@,
        "option"@ != "shift"@,
{
    reveal_strlit("ctrl");
    reveal_strlit("control");
    reveal_strlit("alt");
    reveal_strlit("option");
    reveal_strlit("shift");
    assert("ctrl"@[0] == 'c' && "control"@[0] == 'c' && "alt"@[0] == 'a' && "option"@[0] == 'o'
        && "shift"@[0] == 's');
}

proof fn lemma_named_modifiers(names: Seq<Seq<char>>, words: Seq<Seq<char>>)
    requires
        words.len() == names.len() + 1,
        forall|i: int| 0 <= i < names.len() ==> #[trigger] words[i] == text::lower(names[i]),
    ensures
        keybindings::modifiers_named(names) == if modifiers_known(words) {
            Some(spelled_modifiers(words))
        } else {
            None
        },
    decreases names.len(),
{
    if names.len() > 0 {
        let n = names.len() - 1;
        let init = names.drop_last();
        let front = words.drop_last();
        let word = words[n];
        assert(word == text::lower(names.last()));
        assert forall|i: int| 0 <= i < init.len() implies #[trigger] front[i] == text::lower(
            init[i],
        ) by {
            assert(front[i] == words[i]);
        }
        lemma_named_modifiers(init, front);
        lemma_modifier_words();
        assert(modifiers_known(words) == (modifiers_known(front) && names_modifier(word))) by {
            if modifiers_known(words) {
                assert(names_modifier(words[n]));
                assert forall|i: int| 0 <= i < front.len() - 1 implies names_modifier(
                    #[trigger] front[i],
                ) by {
                    assert(words[i] == front[i]);
                }
            }
            if modifiers_known(front) && names_modifier(word) {
                assert forall|i: int| 0 <= i < words.len() - 1 implies names_modifier(
                    #[trigger] words[i],
                ) by {
                    if i < n {
                        assert(front[i] == words[i]);
                    }
                }
            }
        }
        lemma_one_more_word(words, "ctrl"@, "control"@);
        lemma_one_more_word(words, "alt"@, "option"@);
        lemma_one_more_word(words, "shift"@, "shift"@);
    } else {
        assert(modifiers_known(words));
    }
}

proof fn lemma_one_more_word(words: Seq<Seq<char>>, a: Seq<char>, b: Seq<char>)
    requires
        words.len() > 1,
    ensures
        spells(words, a, b) == (spells(words.drop_last(), a, b) || words[words.len() - 2] == a
            || words[words.len() - 2] == b),
{
    let front = words.drop_last();
    let n = words.len() - 2;
    if spells(words, a, b) {
        let i = choose|i: int|
            0 <= i < words.len() - 1 && ((#[trigger] words[i]) == a || words[i] == b);
        if i < n {
            assert(front[i] == words[i]);
        }
    }
    if spells(front, a, b) {
        let i = choose|i: int|
            0 <= i < front.len() - 1 && ((#[trigger] front[i]) == a || front[i] == b);
        assert(words[i] == front[i]);
    }
}

proof fn lemma_spelled(value: Seq<char>)
    ensures
        ({
            let parts = text::pieces(
                text::trimmed(value),
                text::Separator::Exactly('+'),
            ).map_values(|p: Seq<char>| text::trimmed(p));
            let words = spelled(value);
            &&& words.len() == parts.len() && words.len() > 0
            &&& words.last() == text::lower(parts.last())
            &&& keybindings::modifiers_named(parts.drop_last()) == if modifiers_known(words) {
                Some(spelled_modifiers(words))
            } else {
                None
            }
        }),
{
    let parts = text::pieces(text::trimmed(value), text::Separator::Exactly('+')).map_values(
        |p: Seq<char>| text::trimmed(p),
    );
    let words = spelled(value);
    text::lemma_pieces_nonempty(text::trimmed(value), text::Separator::Exactly('+'));
    assert forall|i: int| 0 <= i < parts.drop_last().len() implies #[trigger] words[i]
        == text::lower(parts.drop_last()[i]) by {}
    lemma_named_modifiers(parts.drop_last(), words);
}

/// A blank spelling, or `none`, disables; nothing else does.
pub proof fn law_none_disables(value: Seq<char>)
    ensures
        keybindings::parsed(value) == Ok::<Option<ShortcutView>, Seq<char>>(None) <==> spells_none(
            value,
        ),
{
    lemma_spelled(value);
}

/// The modifiers of a shortcut are exactly those that its words before the last
/// name: each of Ctrl, Alt and Shift is held if and only if a word names it. The
/// key is the one that the last word names. The event is a press.
pub proof fn law_spelling_is_meant(value: Seq<char>)
    ensures
        keybindings::parsed(value) matches Ok(Some(shortcut)) ==> {
            let words = spelled(value);
            let key = words.last();
            let code = shortcut.event.code;
            &&& modifiers_known(words)
            &&& shortcut.event.modifiers == spelled_modifiers(words)
            &&& shortcut.event.kind == KeyEventKind::Press
            &&& shortcut.event.state == KeyEventState {
                keypad: false,
                caps_lock: false,
                num_lock: false,
            }
            &&& code == KeyCode::Left <==> key == "left"@
            &&& code == KeyCode::Right <==> key == "right"@
            &&& code == KeyCode::Up <==> key == "up"@
            &&& code == KeyCode::Down <==> key == "down"@
            &&& code matches KeyCode::F(n) ==> 1 <= n <= 12 && key.len() > 1 && key[0] == 'f'
                && text::byte_value(key.skip(1)) == Some(n)
            &&& code matches KeyCode::Char(c) ==> 'a' <= c <= 'z' && key == seq![c]
            &&& {
                ||| code == KeyCode::Left
                ||| code == KeyCode::Right
                ||| code == KeyCode::Up
                ||| code == KeyCode::Down
                ||| code is F
                ||| code is Char
            }
        },
{
    lemma_spelled(value);
    lemma_key_words();
    let key = spelled(value).last();
    if key.len() == 1 {
        assert(key =~= seq![key[0]]);
        assert(key.skip(1).len() == 0);
    }
}

proof fn lemma_key_words()
    ensures
        "left"@.len() == 4,
        "right"@.len() == 5,
        "up"@.len() == 2,
        "down"@.len() == 4,
        "left"@ != "down"@,
        "left"@[0] == 'l',
        "right"@[0] == 'r',
        "up"@[0] == 'u',
        "down"@[0] == 'd',
{
    reveal_strlit("left");
    reveal_strlit("right");
    reveal_strlit("up");
    reveal_strlit("down");
    assert("left"@[0] == 'l' && "down"@[0] == 'd');
}

/// The order of modifiers, how often each is spelled and by which of its names
/// makes no difference.
pub proof fn law_modifiers_are_a_set(a: Seq<char>, b: Seq<char>)
    requires
        !spells_none(a),
        !spells_none(b),
        spelled(a).last() == spelled(b).last(),
        modifiers_known(spelled(a)),
        modifiers_known(spelled(b)),
        spells(spelled(a), "ctrl"@, "control"@) == spells(spelled(b), "ctrl"@, "control"@),
        spells(spelled(a), "alt"@, "option"@) == spells(spelled(b), "alt"@, "option"@),
        spells(spelled(a), "shift"@, "shift"@) == spells(spelled(b), "shift"@, "shift"@),
    ensures
        keybindings::parsed(a) is Ok == keybindings::parsed(b) is Ok,
        keybindings::parsed(a) is Ok ==> keybindings::parsed(a) == keybindings::parsed(b),
{
    lemma_spelled(a);
    lemma_spelled(b);
}

/// A key for people: its name after those of its modifiers, in the order Ctrl,
/// Alt, Shift, with plus signs between.
pub open spec fn named_for_people(m: KeyModifiers, name: Seq<char>) -> Seq<char> {
    (if m.control {
        "Ctrl+"@
    } else {
        Seq::empty()
    }) + (if m.alt {
        "Alt+"@
    } else {
        Seq::empty()
    }) + (if m.shift {
        "Shift+"@
    } else {
        Seq::empty()
    }) + name
}

/// A key for tmux: its name after the letters C, M and S of its modifiers, each
/// with a hyphen.
pub open spec fn named_for_tmux(m: KeyModifiers, name: Seq<char>) -> Seq<char> {
    (if m.control {
        "C-"@
    } else {
        Seq::empty()
    }) + (if m.alt {
        "M-"@
    } else {
        Seq::empty()
    }) + (if m.shift {
        "S-"@
    } else {
        Seq::empty()
    }) + name
}

/// The two names of a shortcut are those of its key and its modifiers.
pub proof fn law_names_of_shortcuts(value: Seq<char>, name: Seq<char>)
    requires
        keybindings::parsed(value) is Ok,
        keybindings::parsed(value)->Ok_0 is Some,
        ({
            let code = keybindings::parsed(value)->Ok_0->0.event.code;
            ||| code == KeyCode::Left && name == "Left"@
            ||| code == KeyCode::Right && name == "Right"@
            ||| code == KeyCode::Up && name == "Up"@
            ||| code == KeyCode::Down && name == "Down"@
            ||| code matches KeyCode::F(n) && name == "F"@ + text::decimal_text(n as nat)
            ||| code matches KeyCode::Char(c) && name == seq![c]
        }),
    ensures
        ({
            let shortcut = keybindings::parsed(value)->Ok_0->0;
            &&& shortcut.label == named_for_people(shortcut.event.modifiers, name)
            &&& shortcut.tmux == named_for_tmux(shortcut.event.modifiers, name)
        }),
{
    let shortcut = keybindings::parsed(value)->Ok_0->0;
    keybindings::laws::law_parsed_shortcuts_are_canonical(value);
    assert(shortcut.label =~= named_for_people(shortcut.event.modifiers, name));
    assert(shortcut.tmux =~= named_for_tmux(shortcut.event.modifiers, name));
}

/// Whether a word is `f` and a number that fits a byte.
pub open spec fn function_word(key: Seq<char>) -> bool {
    key.len() > 1 && key[0] == 'f' && text::byte_value(key.skip(1)) is Some
}

/// Whether a word is one letter.
pub open spec fn letter_word(key: Seq<char>) -> bool {
    key.len() == 1 && 'a' <= key[0] <= 'z'
}

/// Whether a word names an arrow.
pub open spec fn arrow_word(key: Seq<char>) -> bool {
    key == "left"@ || key == "right"@ || key == "up"@ || key == "down"@
}

/// What is refused, and how: an unknown modifier before all else; then a
/// function key out of F1 to F12; then a letter without Ctrl or Alt, or with
/// Shift; then the terminal's own Ctrl with h, i, j or m; then any other word
/// that names no key. All else is accepted.
pub proof fn law_refusals(value: Seq<char>)
    requires
        !spells_none(value),
    ensures
        ({
            let words = spelled(value);
            let m = spelled_modifiers(words);
            let key = words.last();
            let quoted = text::debug_text(text::trimmed(value));
            let parsed = keybindings::parsed(value);
            if !modifiers_known(words) {
                parsed == Err::<Option<ShortcutView>, Seq<char>>("unknown modifier in "@ + quoted)
            } else if arrow_word(key) {
                parsed is Ok
            } else if function_word(key) {
                let n = text::byte_value(key.skip(1))->0;
                if 1 <= n <= 12 {
                    parsed is Ok
                } else {
                    parsed == Err::<Option<ShortcutView>, Seq<char>>(
                        "only F1 through F12 are supported"@,
                    )
                }
            } else if letter_word(key) {
                if m.shift || !(m.control || m.alt) {
                    parsed == Err::<Option<ShortcutView>, Seq<char>>(
                        "letter shortcuts require Ctrl or Alt, without Shift"@,
                    )
                } else if m.control && (key == seq!['h'] || key == seq!['i'] || key == seq!['j']
                    || key == seq!['m']) {
                    parsed == Err::<Option<ShortcutView>, Seq<char>>(
                        "Ctrl+H/I/J/M are terminal aliases for Backspace, Tab, or Enter"@,
                    )
                } else {
                    parsed is Ok
                }
            } else {
                parsed == Err::<Option<ShortcutView>, Seq<char>>(
                    "unsupported key in "@ + quoted
                        + "; use arrows, F1–F12, or Ctrl/Alt+letter"@,
                )
            }
        }),
{
    lemma_spelled(value);
    lemma_key_words();
    let key = spelled(value).last();
    if key.len() == 1 {
        assert(key =~= seq![key[0]]);
        assert(key.skip(1).len() == 0);
        assert(seq!['h'][0] == 'h' && seq!['i'][0] == 'i' && seq!['j'][0] == 'j' && seq!['m'][0]
            == 'm');
    }
}

/// The complaints that quote a spelling.
pub proof fn law_complaints(quoted: Seq<char>)
    ensures
        keybindings::unknown_modifier_text(quoted) == "unknown modifier in "@ + quoted,
        keybindings::unsupported_key_text(quoted) == "unsupported key in "@ + quoted
            + "; use arrows, F1–F12, or Ctrl/Alt+letter"@,
{
}

/// Whether an event is a press, or a repeat, of exactly the key of a shortcut:
/// the same key and the same modifiers, no more and no fewer.
pub open spec fn fits(shortcut: KeyEvent, event: KeyEvent) -> bool {
    &&& event.kind == KeyEventKind::Press || event.kind == KeyEventKind::Repeat
    &&& event.code == shortcut.code
    &&& event.modifiers.shift == shortcut.modifiers.shift
    &&& event.modifiers.control == shortcut.modifiers.control
    &&& event.modifiers.alt == shortcut.modifiers.alt
    &&& event.modifiers.super_key == shortcut.modifiers.super_key
    &&& event.modifiers.hyper == shortcut.modifiers.hyper
    &&& event.modifiers.meta == shortcut.modifiers.meta
}

/// A shortcut is matched by exactly the events that fit it.
pub proof fn law_matching_is_exact(shortcut: KeyEvent, event: KeyEvent)
    ensures
        keybindings::matched_by(shortcut, event) == fits(shortcut, event),
{
}

/// Whether the binding at `i` is the first that fits an event.
pub open spec fn fits_first(
    bindings: Seq<(Action, ShortcutView)>,
    event: KeyEvent,
    i: int,
) -> bool {
    &&& 0 <= i < bindings.len()
    &&& fits(bindings[i].1.event, event)
    &&& forall|j: int| 0 <= j < i ==> !fits((#[trigger] bindings[j]).1.event, event)
}

/// Whether no binding fits an event.
pub open spec fn fits_none(bindings: Seq<(Action, ShortcutView)>, event: KeyEvent) -> bool {
    forall|j: int| 0 <= j < bindings.len() ==> !fits((#[trigger] bindings[j]).1.event, event)
}

/// An event does what the first binding that it fits says, and nothing where it
/// fits none.
pub proof fn law_first_fit_acts(
    bindings: Seq<(Action, ShortcutView)>,
    event: KeyEvent,
    i: int,
)
    ensures
        fits_first(bindings, event, i) ==> keybindings::action_for(bindings, event) == Some(
            bindings[i].0,
        ),
        fits_none(bindings, event) ==> keybindings::action_for(bindings, event) is None,
    decreases bindings.len(),
{
    if bindings.len() > 0 {
        let rest = bindings.skip(1);
        assert(forall|j: int| 0 <= j < rest.len() ==> rest[j] == bindings[j + 1]);
        law_first_fit_acts(rest, event, i - 1);
        if fits_first(bindings, event, i) && i > 0 {
            assert(!fits(bindings[0].1.event, event));
            assert forall|j: int| 0 <= j < i - 1 implies !fits(
                (#[trigger] rest[j]).1.event,
                event,
            ) by {
                assert(!fits(bindings[j + 1].1.event, event));
            }
            assert(fits_first(rest, event, i - 1));
        }
        if fits_none(bindings, event) {
            assert(!fits(bindings[0].1.event, event));
            assert forall|j: int| 0 <= j < rest.len() implies !fits(
                (#[trigger] rest[j]).1.event,
                event,
            ) by {
                assert(!fits(bindings[j + 1].1.event, event));
            }
        }
    }
}

/// The shortcut of an action is the first that is bound to it, and its label is
/// shown; an action without one is `disabled`.
pub proof fn law_lookup(bindings: Seq<(Action, ShortcutView)>, action: Action, i: int)
    ensures
        0 <= i < bindings.len() && bindings[i].0 == action && (forall|j: int|
            0 <= j < i ==> (#[trigger] bindings[j]).0 != action) ==> {
            &&& keybindings::shortcut_of(bindings, action) == Some(bindings[i].1)
            &&& keybindings::label_of(bindings, action) == bindings[i].1.label
        },
        (forall|j: int| 0 <= j < bindings.len() ==> (#[trigger] bindings[j]).0 != action) ==> {
            &&& keybindings::shortcut_of(bindings, action) is None
            &&& keybindings::label_of(bindings, action) == "disabled"@
        },
    decreases bindings.len(),
{
    if bindings.len() > 0 {
        let rest = bindings.skip(1);
        assert(forall|j: int| 0 <= j < rest.len() ==> rest[j] == bindings[j + 1]);
        law_lookup(rest, action, i - 1);
        assert(forall|j: int|
            0 <= j < i - 1 && j < rest.len() ==> rest[j].0 == (#[trigger] bindings[j + 1]).0);
        if 0 <= i < bindings.len() && bindings[i].0 == action && (forall|j: int|
            0 <= j < i ==> (#[trigger] bindings[j]).0 != action) && i > 0 {
            assert(bindings[0].0 != action);
            assert forall|j: int| 0 <= j < i - 1 implies (#[trigger] rest[j]).0 != action by {
                assert(bindings[j + 1].0 != action);
            }
            assert(rest[i - 1].0 == action);
        }
        if forall|j: int| 0 <= j < bindings.len() ==> (#[trigger] bindings[j]).0 != action {
            assert(bindings[0].0 != action);
            assert forall|j: int| 0 <= j < rest.len() implies (#[trigger] rest[j]).0 != action by {
                assert(bindings[j + 1].0 != action);
            }
        }
    }
}

/// Only releases are ignored, and they change nothing. A key after the quoting
/// shortcut is quoted, whatever it is. With nothing pending, a key that fits no
/// binding is forwarded; one that fits a binding goes to its action, or arms
/// the quoting; only arming leaves something pending.
pub proof fn law_routing(
    pending: bool,
    bindings: Seq<(Action, ShortcutView)>,
    event: KeyEvent,
    i: int,
)
    ensures
        ({
            let (route, after) = keybindings::routed(pending, bindings, event);
            let release = event.kind == KeyEventKind::Release;
            &&& route == Route::Ignore <==> release
            &&& release ==> after == pending
            &&& !release && pending ==> route == Route::Quoted && !after
            &&& !release && !pending && fits_none(bindings, event) ==> route == Route::Forward
                && !after
            &&& !release && !pending && fits_first(bindings, event, i) && bindings[i].0
                != Action::SendNextKey ==> route == Route::Action(bindings[i].0) && !after
            &&& !release && !pending && fits_first(bindings, event, i) && bindings[i].0
                == Action::SendNextKey ==> route == Route::Arm && after
        }),
{
    law_first_fit_acts(bindings, event, i);
}

/// Whether Bosun keeps a key for itself: Ctrl with q, b or l, whatever else is
/// held.
pub open spec fn kept_by_bosun(event: KeyEvent) -> bool {
    event.modifiers.control && (event.code == KeyCode::Char('q') || event.code == KeyCode::Char('b')
        || event.code == KeyCode::Char('l'))
}

/// Whether one of the bindings has a key.
pub open spec fn has_key(bindings: Seq<(Action, ShortcutView)>, event: KeyEvent) -> bool {
    exists|j: int|
        0 <= j < bindings.len() && (#[trigger] bindings[j]).1.event.code == event.code
            && bindings[j].1.event.modifiers == event.modifiers
}

/// Spellings are resolved one after the other. The first that is no shortcut,
/// or is kept by Bosun, or has a key of one before, is what is complained of.
/// Each other is added behind those before, unless it disables.
pub proof fn law_resolving(
    before: Seq<(Action, Seq<char>)>,
    action: Action,
    spelling: Seq<char>,
)
    ensures
        keybindings::resolved(Seq::<(Action, Seq<char>)>::empty()) == Ok::<
            Seq<(Action, ShortcutView)>,
            Seq<char>,
        >(Seq::empty()),
        ({
            let all = keybindings::resolved(before.push((action, spelling)));
            match (keybindings::resolved(before), keybindings::parsed(spelling)) {
                (Err(e), _) => all == Err::<Seq<(Action, ShortcutView)>, Seq<char>>(e),
                (Ok(_), Err(e)) => all == Err::<Seq<(Action, ShortcutView)>, Seq<char>>(e),
                (Ok(bindings), Ok(None)) => all == Ok::<
                    Seq<(Action, ShortcutView)>,
                    Seq<char>,
                >(bindings),
                (Ok(bindings), Ok(Some(shortcut))) => if kept_by_bosun(shortcut.event) {
                    all == Err::<Seq<(Action, ShortcutView)>, Seq<char>>(
                        shortcut.label + " is reserved by Bosun"@,
                    )
                } else if has_key(bindings, shortcut.event) {
                    all == Err::<Seq<(Action, ShortcutView)>, Seq<char>>(
                        shortcut.label + " is assigned more than once"@,
                    )
                } else {
                    all == Ok::<Seq<(Action, ShortcutView)>, Seq<char>>(
                        bindings + seq![(action, shortcut)],
                    )
                },
            }
        }),
{
    let entries = before.push((action, spelling));
    assert(entries.drop_last() =~= before);
    assert(entries.last() == (action, spelling));
    keybindings::laws::law_parsed_shortcuts_are_canonical(spelling);
    if let Ok(bindings) = keybindings::resolved(before) {
        if let Ok(Some(shortcut)) = keybindings::parsed(spelling) {
            let event = shortcut.event;
            if has_key(bindings, event) {
                let j = choose|j: int|
                    0 <= j < bindings.len() && (#[trigger] bindings[j]).1.event.code == event.code
                        && bindings[j].1.event.modifiers == event.modifiers;
                assert(keybindings::matched_by(bindings[j].1.event, event));
            }
            assert(bindings + seq![(action, shortcut)] =~= bindings.push((action, shortcut)));
        }
    }
}

/// Each field of a configuration is the spelling of its own action; they are
/// taken in the order previous tab, next tab, previous session, next session,
/// send next key.
pub proof fn law_configured_spellings(config: BindingsConfig)
    ensures
        config.entries() == seq![
            (Action::PreviousTab, config.previous_tab@),
            (Action::NextTab, config.next_tab@),
            (Action::PreviousSession, config.previous_session@),
            (Action::NextSession, config.next_session@),
            (Action::SendNextKey, config.send_next_key@),
        ],
        config.spelling(Action::PreviousTab) == config.previous_tab@,
        config.spelling(Action::NextTab) == config.next_tab@,
        config.spelling(Action::PreviousSession) == config.previous_session@,
        config.spelling(Action::NextSession) == config.next_session@,
        config.spelling(Action::SendNextKey) == config.send_next_key@,
{
    assert(config.entries() =~= seq![
        (Action::PreviousTab, config.previous_tab@),
        (Action::NextTab, config.next_tab@),
        (Action::PreviousSession, config.previous_session@),
        (Action::NextSession, config.next_session@),
        (Action::SendNextKey, config.send_next_key@),
    ]);
}

/// What a configuration file gives is kept; what it leaves out is Shift with an
/// arrow for the four movements, Ctrl with v for sending the next key.
pub proof fn law_missing_spellings(partial: PartialBindings, config: BindingsConfig)
    requires
        forall|action: Action| #[trigger]
            config.spelling(action) == (match partial.spelling(action) {
                Some(spelling) => spelling,
                None => keybindings::default_spelling(action),
            }),
    ensures
        config.previous_tab@ == (match partial.previous_tab {
            Some(s) => s@,
            None => "Shift+Left"@,
        }),
        config.next_tab@ == (match partial.next_tab {
            Some(s) => s@,
            None => "Shift+Right"@,
        }),
        config.previous_session@ == (match partial.previous_session {
            Some(s) => s@,
            None => "Shift+Up"@,
        }),
        config.next_session@ == (match partial.next_session {
            Some(s) => s@,
            None => "Shift+Down"@,
        }),
        config.send_next_key@ == (match partial.send_next_key {
            Some(s) => s@,
            None => "Ctrl+v"@,
        }),
{
    assert(config.spelling(Action::PreviousTab) == config.previous_tab@);
    assert(config.spelling(Action::NextTab) == config.next_tab@);
    assert(config.spelling(Action::PreviousSession) == config.previous_session@);
    assert(config.spelling(Action::NextSession) == config.next_session@);
    assert(config.spelling(Action::SendNextKey) == config.send_next_key@);
}

/// Without a configuration the four movements are Shift with an arrow, and Ctrl
/// with v sends the next key.
pub proof fn law_default_keys()
    ensures
        ({
            let all = keybindings::laws::default_bindings();
            let none = KeyModifiers {
                shift: false,
                control: false,
                alt: false,
                super_key: false,
                hyper: false,
                meta: false,
            };
            let shift = KeyModifiers { shift: true, ..none };
            let control = KeyModifiers { control: true, ..none };
            &&& all.len() == 5
            &&& all[0].0 == Action::PreviousTab && all[0].1.event == KeyEvent::new(
                KeyCode::Left,
                shift,
            ) && all[0].1.tmux == "S-"@ + "Left"@
            &&& all[1].0 == Action::NextTab && all[1].1.event == KeyEvent::new(
                KeyCode::Right,
                shift,
            ) && all[1].1.tmux == "S-"@ + "Right"@
            &&& all[2].0 == Action::PreviousSession && all[2].1.event == KeyEvent::new(
                KeyCode::Up,
                shift,
            ) && all[2].1.tmux == "S-"@ + "Up"@
            &&& all[3].0 == Action::NextSession && all[3].1.event == KeyEvent::new(
                KeyCode::Down,
                shift,
            ) && all[3].1.tmux == "S-"@ + "Down"@
            &&& all[4].0 == Action::SendNextKey && all[4].1.event == KeyEvent::new(
                KeyCode::Char('v'),
                control,
            ) && all[4].1.tmux == "C-"@ + seq!['v']
        }),
{
    let all = keybindings::laws::default_bindings();
    assert(all[0].1.tmux =~= "S-"@ + "Left"@);
    assert(all[1].1.tmux =~= "S-"@ + "Right"@);
    assert(all[2].1.tmux =~= "S-"@ + "Up"@);
    assert(all[3].1.tmux =~= "S-"@ + "Down"@);
    assert(all[4].1.tmux =~= "C-"@ + seq!['v']);
}

/// The models of shortcuts, of bindings and of results leave nothing out.
pub proof fn law_models_are_whole(
    shortcut: Shortcut,
    bindings: KeyBindings,
    parsed: Result<Option<Shortcut>, String>,
    resolved: Result<KeyBindings, String>,
    i: int,
)
    ensures
        shortcut@.event == shortcut.event,
        shortcut@.label == shortcut.label@,
        shortcut@.tmux == shortcut.tmux@,
        bindings@.len() == bindings.0@.len(),
        0 <= i < bindings@.len() ==> bindings@[i].0 == bindings.0@[i].0 && bindings@[i].1
            == bindings.0@[i].1@,
        parsed is Ok == keybindings::parse_view(parsed) is Ok,
        parsed matches Err(e) ==> keybindings::parse_view(parsed)->Err_0 == e@,
        parsed matches Ok(None) ==> keybindings::parse_view(parsed)->Ok_0 is None,
        parsed matches Ok(Some(s)) ==> keybindings::parse_view(parsed)->Ok_0 == Some(s@),
        resolved is Ok == keybindings::resolve_view(resolved) is Ok,
        resolved matches Err(e) ==> keybindings::resolve_view(resolved)->Err_0 == e@,
        resolved matches Ok(b) ==> keybindings::resolve_view(resolved)->Ok_0 == b@,
{
}

} // verus!
