use vigil::baseline::builder::BaselineBuilder;
use vigil::baseline::run::{BuildRun, Step};
use vigil::event::{BehavioralEvent, EventType};
use vigil::time::Timestamp;

fn event(agent: &str, session: &str, position: u32, tool: &str) -> BehavioralEvent {
    BehavioralEvent {
        timestamp: Timestamp::from_unix(1_700_000_000 + position as i64, 0).unwrap(),
        session_id: session.to_string(),
        agent_id: agent.to_string(),
        event_type: EventType::ToolCall,
        tool_name: Some(tool.to_string()),
        param_keys: vec![],
        resource_ids: vec![],
        data_in_bytes: 1,
        data_out_bytes: 2,
        duration_ms: 0,
        token_count: None,
        sequence_position: position,
        trace_id: None,
        span_id: None,
        provider: None,
        model: None,
    }
}

fn offer(run: &mut BuildRun, e: BehavioralEvent) -> Option<bool> {
    match run.step(&e) {
        Step::Ignore => return None,
        Step::FetchBaseline => run.add_agent(&e.agent_id, None),
        Step::Process => {}
    }
    assert_eq!(run.step(&e), Step::Process);
    assert!(run.accepts(&e));
    Some(run.process(e))
}

#[test]
fn agents_are_built_apart() {
    let mut run = BuildRun::new(None);
    assert!(run.is_empty());
    assert_eq!(run.step(&event("a", "s", 1, "x")), Step::FetchBaseline);
    assert_eq!(offer(&mut run, event("a", "s", 1, "x")), Some(true));
    assert_eq!(offer(&mut run, event("b", "s", 1, "y")), Some(true));
    assert_eq!(offer(&mut run, event("a", "s", 2, "z")), Some(true));
    assert_eq!(offer(&mut run, event("a", "s", 2, "z")), Some(false));
    assert!(!run.is_empty());
    // Three events were taken in.
    assert_eq!(run.skip(), 4);
    assert_eq!(run.skip(), 4);
    assert!(run.can_skip());
    assert_eq!(run.skipped(), 2);
    assert!(run.can_finish());
    let results = run.finish();
    assert_eq!(results.len(), 2);
    assert_eq!(results[0].agent_id, "a");
    assert_eq!(results[0].events.len(), 2);
    assert_eq!(results[0].events[1].tool_name.as_deref(), Some("z"));
    assert_eq!(results[0].baseline.event_count, 2);
    assert_eq!(results[0].baseline.session_count, 1);
    assert_eq!(results[0].baseline.agent_id, "a");
    assert_eq!(results[1].agent_id, "b");
    assert_eq!(results[1].baseline.event_count, 1);
    assert_eq!(results[1].baseline.bigrams.len(), 0);
}

#[test]
fn only_the_wanted_agent_is_built() {
    let mut run = BuildRun::new(Some("b".to_string()));
    assert_eq!(offer(&mut run, event("a", "s", 1, "x")), None);
    assert!(run.is_empty());
    assert_eq!(offer(&mut run, event("b", "s", 1, "x")), Some(true));
    assert_eq!(run.finish().len(), 1);
}

#[test]
fn a_profile_is_resumed() {
    let mut builder = BaselineBuilder::new("a");
    builder.process(&event("a", "s", 1, "x"));
    let mut run = BuildRun::new(None);
    run.add_agent("a", Some(builder.finish()));
    assert_eq!(offer(&mut run, event("a", "s", 1, "x")), Some(false));
    assert_eq!(offer(&mut run, event("a", "s", 2, "x")), Some(true));
    let results = run.finish();
    assert_eq!(results[0].events.len(), 1);
    assert_eq!(results[0].baseline.event_count, 2);
    assert_eq!(results[0].baseline.session_count, 2);
}

#[test]
fn mixed_streams_make_the_same_profiles() {
    let stream = vec![
        event("a", "s", 1, "x"),
        event("b", "s", 1, "y"),
        event("a", "t", 1, "x"),
        event("b", "s", 2, "z"),
        event("a", "s", 2, "y"),
    ];
    let mut run = BuildRun::new(None);
    for e in &stream {
        offer(&mut run, e.clone());
    }
    for result in run.finish() {
        let mut builder = BaselineBuilder::new(&result.agent_id);
        for e in stream.iter().filter(|e| e.agent_id == result.agent_id) {
            builder.process(e);
        }
        assert_eq!(format!("{:?}", builder.finish()), format!("{:?}", result.baseline));
    }
}

#[test]
fn a_second_run_keeps_nothing() {
    let stream = vec![
        event("a", "s", 1, "x"),
        event("b", "s", 1, "y"),
        event("a", "s", 2, "x"),
        event("a", "t", 5, "z"),
        event("b", "s", 2, "x"),
        event("a", "s", 3, "x"),
    ];
    let mut first = BuildRun::new(None);
    for e in &stream {
        offer(&mut first, e.clone());
    }
    let left = first.finish();
    let mut second = BuildRun::new(None);
    for e in &stream {
        if second.step(e) == Step::FetchBaseline {
            let profile = left.iter().find(|r| r.agent_id == e.agent_id).unwrap();
            second.add_agent(&e.agent_id, Some(profile.baseline.clone()));
        }
        assert!(!second.process(e.clone()));
    }
    assert_eq!(second.skip(), 1);
    let again = second.finish();
    assert_eq!(again.len(), left.len());
    for (one, two) in left.iter().zip(&again) {
        assert_eq!(one.agent_id, two.agent_id);
        assert!(two.events.is_empty());
        assert_eq!(format!("{:?}", one.baseline), format!("{:?}", two.baseline));
    }
}
