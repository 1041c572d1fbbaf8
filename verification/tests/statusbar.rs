use bosun::ui::statusbar::{line_width, render, BarState, Role, Segment, KEY_HINTS};

fn state() -> BarState {
    BarState { send_next_key_pending: false, warning: None, creating: None, sessions: 3 }
}

fn text(segments: &[Segment]) -> String {
    segments.iter().map(|s| s.text.as_str()).collect()
}

#[test]
fn parts_of_the_bar() {
    let segments = render(200, &state(), "1.2.3");
    let roles: Vec<Role> = segments.iter().map(|s| s.role).collect();
    assert_eq!(
        roles,
        [Role::Brand, Role::Muted, Role::Muted, Role::Padding, Role::Hints]
    );
    assert_eq!(segments[0].text, " bosun ");
    assert_eq!(segments[1].text, " v1.2.3 ");
    assert_eq!(segments[2].text, "3 sessions");
    assert_eq!(
        segments[4].text,
        "↵ attach · n new · E edit · g group · 1-9 move · R ren · D kill · T theme · ? help · Q quit "
    );
    assert!(segments[3].text.chars().all(|c| c == ' '));
}

#[test]
fn messages_in_order_of_importance() {
    let mut s = state();
    s.creating = Some("work".to_string());
    let message = |s: &BarState| {
        let m = render(10, s, "0").remove(2);
        (m.text, m.role)
    };
    assert_eq!(message(&s), ("⟳ creating work…".to_string(), Role::Waiting));
    s.warning = Some("careful".to_string());
    assert_eq!(message(&s), ("careful".to_string(), Role::Waiting));
    s.send_next_key_pending = true;
    assert_eq!(message(&s), ("Send next key to app…".to_string(), Role::Accent));
}

#[test]
fn bar_fills_the_width_or_is_as_long_as_it_must() {
    let least = 7 + 4 + 10 + KEY_HINTS.chars().count();
    for width in [0, 1, least - 1, least, least + 1, 300, 65535] {
        let segments = render(width as u16, &state(), "0");
        assert_eq!(text(&segments).chars().count(), width.max(least));
        assert_eq!(line_width(&segments), width.max(least));
        assert_eq!(segments[3].text.len(), width.saturating_sub(least));
    }
}

#[test]
fn widths_count_characters() {
    let segment = |text: &str| Segment { text: text.to_string(), role: Role::Muted };
    assert_eq!(line_width(&vec![]), 0);
    assert_eq!(line_width(&vec![segment("é⟳"), segment(""), segment("ab")]), 4);
}
