//! What an agent is doing, and the badge that says so.

use snapback::agents::{
    badge_color, badge_glyph, badge_glyph_color, classify, friendly_status, is_active, pulse_color,
    push_badge, qualifier_copy, AgentActivity, AgentKind, ReportedAgent, BADGE_DOT,
    BADGE_NEEDS_INPUT,
};
use snapback::style::{Color, Modifier, Span, Style};

fn agent(kind: &str, state: Option<&str>, status: Option<&str>) -> ReportedAgent {
    let kind = if kind == "background" { AgentKind::Background } else { AgentKind::Interactive };
    ReportedAgent { kind, state: state.map(str::to_owned), status: status.map(str::to_owned) }
}

#[test]
fn each_bucket_maps_to_its_badge_color_and_pulse() {
    let cases = [
        (Some("blocked"), Color::Yellow, false),
        (Some("waiting"), Color::Yellow, false),
        (Some("idle"), Color::Green, false),
        (Some("working"), Color::Gray, true),
        (Some("busy"), Color::Gray, true),
        (Some("done"), Color::Green, false),
        (Some("stopped"), Color::DarkGray, false),
        (Some("failed"), Color::DarkGray, false),
        (Some("compacting"), Color::Gray, true),
        (None, Color::Gray, true),
    ];

    for (qualifier, color, active) in cases {
        let from_state = agent("background", qualifier, None);
        assert_eq!(badge_color(&from_state), color, "state={qualifier:?} should be {color:?}");
        assert_eq!(
            is_active(&from_state),
            active,
            "state={qualifier:?} should have active={active}"
        );

        let from_status = agent("interactive", None, qualifier);
        assert_eq!(badge_color(&from_status), color, "status={qualifier:?} should be {color:?}");
        assert_eq!(
            is_active(&from_status),
            active,
            "status={qualifier:?} should have active={active}"
        );
    }

    let interrupted = agent("background", Some("working"), Some("idle"));
    assert_eq!(
        badge_color(&interrupted),
        Color::Gray,
        "the interrupted bucket shares the working gray base"
    );
    assert!(
        !is_active(&interrupted),
        "it must be steady: the pulse would claim work its own status denies"
    );
}

#[test]
fn state_beats_status_for_the_badge_color() {
    let both = agent("background", Some("blocked"), Some("idle"));
    assert_eq!(badge_color(&both), Color::Yellow);
    assert!(!is_active(&both));
}

#[test]
fn badge_glyph_marks_only_needs_input_with_a_bang() {
    let glyph = |state: &str| badge_glyph(&agent("background", Some(state), None));

    assert_eq!(glyph("blocked"), BADGE_NEEDS_INPUT);
    assert_eq!(glyph("waiting"), BADGE_NEEDS_INPUT);

    assert_eq!(glyph("idle"), BADGE_DOT);
    assert_eq!(glyph("working"), BADGE_DOT);
    assert_eq!(glyph("busy"), BADGE_DOT);
    assert_eq!(glyph("done"), BADGE_DOT);

    assert_eq!(glyph("compacting"), BADGE_DOT);
    assert_eq!(badge_glyph(&agent("background", None, None)), BADGE_DOT);
}

#[test]
fn badge_glyph_color_reddens_only_needs_input() {
    let color = |state: &str| badge_glyph_color(&agent("background", Some(state), None));

    assert_eq!(color("blocked"), Color::Red);
    assert_eq!(color("waiting"), Color::Red);

    for state in ["idle", "working", "busy", "done", "compacting"] {
        let a = agent("background", Some(state), None);
        assert_eq!(badge_glyph_color(&a), badge_color(&a), "state={state:?}");
    }
    let none = agent("background", None, None);
    assert_eq!(badge_glyph_color(&none), badge_color(&none));
}

#[test]
fn pulse_color_dims_the_working_base_and_passes_anything_else_through() {
    assert_eq!(pulse_color(Color::Gray), Color::DarkGray);
    assert_eq!(pulse_color(Color::Yellow), Color::Yellow);
    assert_eq!(pulse_color(Color::Green), Color::Green);
}

fn agent_reaching(bucket: AgentActivity) -> ReportedAgent {
    match bucket {
        AgentActivity::NeedsInput => agent("background", Some("blocked"), None),
        AgentActivity::Idle => agent("background", Some("idle"), None),
        AgentActivity::Working => agent("background", Some("working"), None),
        AgentActivity::WorkingButIdle => agent("background", Some("working"), Some("idle")),
        AgentActivity::Done => agent("background", Some("done"), None),
        AgentActivity::Ended => agent("background", Some("stopped"), None),
        AgentActivity::Other => agent("background", Some("compacting"), None),
    }
}

const ALL_BUCKETS: [AgentActivity; 7] = [
    AgentActivity::NeedsInput,
    AgentActivity::Idle,
    AgentActivity::Working,
    AgentActivity::WorkingButIdle,
    AgentActivity::Done,
    AgentActivity::Ended,
    AgentActivity::Other,
];

#[test]
fn every_pulsing_buckets_badge_color_has_a_distinct_dim_partner() {
    for bucket in ALL_BUCKETS {
        let agent = agent_reaching(bucket);
        assert_eq!(
            classify(&agent),
            bucket,
            "agent_reaching({bucket:?}) must actually classify into that bucket, \
             or this walk silently stops covering it"
        );
        if !is_active(&agent) {
            continue;
        }
        let base = badge_color(&agent);
        assert_ne!(
            pulse_color(base),
            base,
            "the {bucket:?} bucket PULSES, so its base {base:?} needs a dim partner"
        );
    }
}

#[test]
fn an_agent_reads_as_its_kind_and_its_phrase() {
    assert_eq!(friendly_status(&agent("background", Some("blocked"), None)), "bg needs input");
    assert_eq!(friendly_status(&agent("background", Some("done"), None)), "bg done");
    assert_eq!(friendly_status(&agent("background", Some("compacting"), None)), "bg compacting");
    assert_eq!(friendly_status(&agent("interactive", None, Some("idle"))), "live idle");
    assert_eq!(friendly_status(&agent("interactive", None, None)), "live");
    assert_eq!(qualifier_copy(&agent("background", Some("working"), Some("idle"))), Some("working"));
    assert_eq!(qualifier_copy(&agent("background", None, None)), None);
}

#[test]
fn a_badge_reads_the_same_in_both_phases() {
    for bucket in ALL_BUCKETS {
        let agent = agent_reaching(bucket);
        let mut shown: Vec<Span> = vec![];
        let mut hidden: Vec<Span> = vec![];
        push_badge(&mut shown, &agent, 0);
        push_badge(&mut hidden, &agent, 2);
        let texts = |spans: &[Span]| -> Vec<String> { spans.iter().map(|s| s.text.clone()).collect() };
        assert_eq!(texts(&shown), texts(&hidden));
        for (a, b) in shown.iter().zip(hidden.iter()).skip(1) {
            assert_eq!(a.style, b.style);
        }
        assert_eq!(shown[0].style != hidden[0].style, is_active(&agent));
    }
    let mut spans: Vec<Span> = vec![];
    push_badge(&mut spans, &agent("background", Some("working"), None), 2);
    assert_eq!(spans[0].style, Style::plain().fg(Color::DarkGray).add_modifier(Modifier::bold()));
    assert_eq!(spans[1].style, Style::plain().fg(Color::Gray).add_modifier(Modifier::bold()));
    assert_eq!(spans[3].style, Style::plain().add_modifier(Modifier::dim()));
}
