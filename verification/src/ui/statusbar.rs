//! The status bar at the bottom of the screen: what is going on at the left,
//! key hints at the right.

use crate::text;
use vstd::prelude::*;

verus! {

/// The key hints.
pub const KEY_HINTS: &'static str =
    "↵ attach · n new · E edit · g group · 1-9 move · R ren · D kill · T theme · ? help · Q quit ";

/// What the bar tells about.
#[derive(Clone, Debug)]
pub struct BarState {
    /// Whether the next key goes to the application.
    pub send_next_key_pending: bool,
    /// A warning.
    pub warning: Option<String>,
    /// The name of the session that is being created.
    pub creating: Option<String>,
    /// How many sessions there are.
    pub sessions: usize,
}

/// What a part of the bar is, which decides its colours.
#[derive(Clone, Copy, Debug, PartialEq, Eq, Structural)]
pub enum Role {
    /// The program's name.
    Brand,
    /// Text in the background: the version, the number of sessions.
    Muted,
    /// Something that the user started.
    Accent,
    /// Something that waits or warns.
    Waiting,
    /// The space in between.
    Padding,
    /// The key hints.
    Hints,
}

/// A part of the bar.
#[derive(Clone, Debug)]
pub struct Segment {
    pub text: String,
    pub role: Role,
}

/// The model of a part of the bar.
#[verifier::ext_equal]
pub struct SegmentView {
    pub text: Seq<char>,
    pub role: Role,
}

impl View for Segment {
    type V = SegmentView;

    open spec fn view(&self) -> SegmentView {
        SegmentView { text: self.text@, role: self.role }
    }
}

/// Parts of the bar by their models.
pub open spec fn segments_view(segments: Seq<Segment>) -> Seq<SegmentView> {
    segments.map_values(|s: Segment| s@)
}

/// What is going on. A quoted key comes before a warning, a warning before a
/// session that is being created; else the sessions are counted.
pub open spec fn message(state: BarState) -> SegmentView {
    if state.send_next_key_pending {
        SegmentView { text: "Send next key to app…"@, role: Role::Accent }
    } else if let Some(warning) = state.warning {
        SegmentView { text: warning@, role: Role::Waiting }
    } else if let Some(display) = state.creating {
        SegmentView { text: "⟳ creating "@ + display@ + "…"@, role: Role::Waiting }
    } else {
        SegmentView {
            text: text::decimal_text(state.sessions as nat) + " sessions"@,
            role: Role::Muted,
        }
    }
}

/// The left part of the bar.
pub open spec fn left_part(state: BarState, version: Seq<char>) -> Seq<SegmentView> {
    seq![
        SegmentView { text: " bosun "@, role: Role::Brand },
        SegmentView { text: " v"@ + version + " "@, role: Role::Muted },
        message(state),
    ]
}

/// How many characters parts of the bar have.
pub open spec fn width_of(segments: Seq<SegmentView>) -> nat
    decreases segments.len(),
{
    if segments.len() == 0 {
        0
    } else {
        width_of(segments.drop_last()) + segments.last().text.len()
    }
}

/// A number of spaces.
pub open spec fn blank(n: nat) -> Seq<char> {
    Seq::new(n, |i: int| ' ')
}

/// The spaces between the left part and the hints: as many as the width has
/// room for.
pub open spec fn padding(width: nat, left: nat, right: nat) -> nat {
    if left + right < width {
        (width - (left + right)) as nat
    } else {
        0
    }
}

/// The whole bar.
pub open spec fn bar(width: nat, state: BarState, version: Seq<char>) -> Seq<SegmentView> {
    let left = left_part(state, version);
    left + seq![
        SegmentView {
            text: blank(padding(width, width_of(left), KEY_HINTS@.len())),
            role: Role::Padding,
        },
        SegmentView { text: KEY_HINTS@, role: Role::Hints },
    ]
}

/// How many characters parts of the bar have, or the greatest number there is
/// where they have more.
pub fn line_width(segments: &Vec<Segment>) -> (res: usize)
    ensures
        res == (if width_of(segments_view(segments@)) <= usize::MAX {
            width_of(segments_view(segments@))
        } else {
            usize::MAX as nat
        }),
{
    let ghost all = segments_view(segments@);
    let mut res: usize = 0;
    let mut i: usize = 0;
    while i < segments.len()
        invariant
            i <= segments@.len(),
            all == segments_view(segments@),
            res == (if width_of(all.take(i as int)) <= usize::MAX {
                width_of(all.take(i as int))
            } else {
                usize::MAX as nat
            }),
        decreases segments@.len() - i,
    {
        proof {
            assert(all.take(i + 1).drop_last() == all.take(i as int));
            assert(all.take(i + 1).last() == all[i as int]);
        }
        res = res.saturating_add(text::chars_of(segments[i].text.as_str()).len());
        i += 1;
    }
    assert(all.take(i as int) == all);
    res
}

fn spaces(n: usize) -> (res: String)
    ensures
        res@ == blank(n as nat),
{
    let mut res = String::new();
    let mut i: usize = 0;
    while i < n
        invariant
            i <= n,
            res@ == blank(i as nat),
        decreases n - i,
    {
        res.push(' ');
        i += 1;
        assert(res@ =~= blank(i as nat));
    }
    res
}

fn message_segment(state: &BarState) -> (res: Segment)
    ensures
        res@ == message(*state),
{
    if state.send_next_key_pending {
        return Segment { text: "Send next key to app…".to_string(), role: Role::Accent };
    }
    if let Some(warning) = &state.warning {
        return Segment { text: warning.clone(), role: Role::Waiting };
    }
    if let Some(display) = &state.creating {
        let mut text = "⟳ creating ".to_string();
        text.append(display.as_str());
        text.append("…");
        return Segment { text, role: Role::Waiting };
    }
    let mut text = text::decimal(state.sessions);
    text.append(" sessions");
    Segment { text, role: Role::Muted }
}

/// The bar for a width in characters. The hints stand at the right end; where
/// there is no room they follow the left part directly, and the bar is longer
/// than the width.
pub fn render(width: u16, state: &BarState, version: &str) -> (res: Vec<Segment>)
    ensures
        segments_view(res@) == bar(width as nat, *state, version@),
{
    let mut shown = " v".to_string();
    shown.append(version);
    shown.append(" ");
    let mut res = vec![
        Segment { text: " bosun ".to_string(), role: Role::Brand },
        Segment { text: shown, role: Role::Muted },
        message_segment(state),
    ];
    let ghost left = left_part(*state, version@);
    assert(segments_view(res@) =~= left);
    let left_width = line_width(&res);
    let right_width = text::chars_of(KEY_HINTS).len();
    let used = left_width.saturating_add(right_width);
    let pad = (width as usize).saturating_sub(used);
    assert(pad == padding(width as nat, width_of(left), KEY_HINTS@.len()));
    res.push(Segment { text: spaces(pad), role: Role::Padding });
    res.push(Segment { text: KEY_HINTS.to_string(), role: Role::Hints });
    assert(segments_view(res@) =~= bar(width as nat, *state, version@));
    res
}

/// The bar fills its width exactly, unless the left part and the hints alone
/// are longer; then nothing stands between them.
pub proof fn law_bar_fills_the_width(width: nat, state: BarState, version: Seq<char>)
    ensures
        ({
            let least = width_of(left_part(state, version)) + KEY_HINTS@.len();
            width_of(bar(width, state, version)) == if least < width {
                width
            } else {
                least
            }
        }),
{
    let all = bar(width, state, version);
    let left = left_part(state, version);
    assert(all.drop_last().drop_last() =~= left);
    assert(width_of(all) == width_of(all.drop_last()) + KEY_HINTS@.len());
    assert(width_of(all.drop_last()) == width_of(left) + all.drop_last().last().text.len());
}

/// The bar has five parts, in order: the name, the version, what is going on,
/// the space between, which holds nothing but spaces, and the key hints.
pub proof fn law_parts_of_the_bar(width: nat, state: BarState, version: Seq<char>)
    ensures
        ({
            let all = bar(width, state, version);
            &&& all.len() == 5
            &&& all[0].text == " bosun "@ && all[0].role == Role::Brand
            &&& all[1].text == " v"@ + version + " "@ && all[1].role == Role::Muted
            &&& all[2] == message(state)
            &&& all[3].role == Role::Padding
            &&& forall|i: int| 0 <= i < all[3].text.len() ==> #[trigger] all[3].text[i] == ' '
            &&& all[4].role == Role::Hints
            &&& all[4].text
                == "↵ attach · n new · E edit · g group · 1-9 move · R ren · D kill · T theme · ? help · Q quit "@
        }),
{
}

/// The parts together are as wide as the bar is to be, or, where that is too
/// little for the others, there is no space between.
pub proof fn law_space_between(width: nat, state: BarState, version: Seq<char>)
    ensures
        ({
            let all = bar(width, state, version);
            let others = all[0].text.len() + all[1].text.len() + all[2].text.len()
                + all[4].text.len();
            &&& others <= width ==> others + all[3].text.len() == width
            &&& others >= width ==> all[3].text.len() == 0
            &&& width_of(all) == others + all[3].text.len()
        }),
{
    let left = left_part(state, version);
    reveal_with_fuel(width_of, 6);
    let all = bar(width, state, version);
    assert(left.drop_last().drop_last().drop_last() =~= Seq::<SegmentView>::empty());
    assert(all.drop_last().drop_last() =~= left);
    assert(width_of(left) == left[0].text.len() + left[1].text.len() + left[2].text.len());
}

/// What is going on: that the next key is passed on comes before all else, in
/// the accent; then a warning; then a session that is being created, both as
/// something that waits; else the number of sessions, muted.
pub proof fn law_messages(state: BarState)
    ensures
        ({
            let shown = message(state);
            let sent = state.send_next_key_pending;
            &&& sent ==> shown.text == "Send next key to app…"@ && shown.role == Role::Accent
            &&& !sent && state.warning is Some ==> shown.text == state.warning->0@ && shown.role
                == Role::Waiting
            &&& !sent && state.warning is None && state.creating is Some ==> shown.text
                == "⟳ creating "@ + state.creating->0@ + "…"@ && shown.role == Role::Waiting
            &&& !sent && state.warning is None && state.creating is None ==> shown.text
                == text::decimal_text(state.sessions as nat) + " sessions"@ && shown.role
                == Role::Muted
        }),
{
}

/// The width of parts is the sum of their lengths.
pub proof fn law_widths_add_up(segments: Seq<SegmentView>, last: SegmentView)
    ensures
        width_of(Seq::<SegmentView>::empty()) == 0,
        width_of(segments.push(last)) == width_of(segments) + last.text.len(),
{
    assert(segments.push(last).drop_last() =~= segments);
}

/// The models of parts of the bar leave nothing out.
pub proof fn law_models_are_whole(segments: Seq<Segment>, i: int)
    requires
        0 <= i < segments.len(),
    ensures
        segments_view(segments).len() == segments.len(),
        segments_view(segments)[i].text == segments[i].text@,
        segments_view(segments)[i].role == segments[i].role,
{
}

} // verus!
