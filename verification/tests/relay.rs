use frame_relay::config::{Config, Key, Settings};
use frame_relay::metadata::{MetadataBag, Parameter};
use frame_relay::pipeline::pipeline_description;
use frame_relay::relay::{
    Delivery, Directive, Event, Failure, Frame, GrabOutcome, Outgoing, Phase, Relay, RelayState,
};

fn config(pairs: &[(Key, &str)]) -> Config {
    let mut settings = Settings::empty();
    for (key, text) in pairs {
        settings.set(*key, text.to_string());
    }
    Config::from_settings(&settings, &[]).unwrap()
}

fn running(pairs: &[(Key, &str)]) -> Relay {
    let mut relay = Relay::new(&config(pairs));
    relay.started(true);
    relay
}

fn input(id: &str, metadata: MetadataBag) -> Event {
    Event::Input { id: id.to_string(), metadata }
}

fn tick() -> Event {
    input("tick", MetadataBag::new())
}

fn frame(width: usize, height: usize) -> Frame {
    Frame { width, height, data: vec![7u8; width * height * 3] }
}

fn state(phase: Phase, holding: bool) -> RelayState {
    RelayState { phase, holding }
}

/// Serves one tick against a source that yields `outcome`; counts a publish.
fn serve(relay: &mut Relay, event: Event, outcome: GrabOutcome, published: &mut Vec<Outgoing>, grabs: &mut usize) {
    if let Directive::Grab { metadata } = relay.on_event(event) {
        *grabs += 1;
        if let Delivery::Publish(out) = relay.on_grab(metadata, outcome) {
            relay.on_publish(true);
            published.push(out);
        }
    }
}

#[test]
fn a_new_relay_waits_for_its_source() {
    let mut relay = Relay::new(&config(&[]));
    assert_eq!(relay.current(), state(Phase::Uninitialized, false));
    assert!(!relay.is_running());
    assert_eq!(relay.on_event(tick()), Directive::Nothing);
    assert_eq!(relay.on_event(Event::Stop), Directive::Nothing);
    assert_eq!(relay.current(), state(Phase::Uninitialized, false));
    assert!(!relay.finish());
    assert_eq!(relay.exit_code(), 0);
}

#[test]
fn a_started_source_makes_the_relay_run() {
    let mut relay = Relay::new(&config(&[]));
    relay.started(true);
    assert_eq!(relay.current(), state(Phase::Running, true));
    assert!(relay.is_running());
    relay.started(false);
    assert_eq!(relay.current(), state(Phase::Running, true));
}

#[test]
fn a_source_that_does_not_start_is_fatal() {
    let mut relay = Relay::new(&config(&[]));
    relay.started(false);
    assert_eq!(relay.current(), state(Phase::Failed(Failure::CaptureStart), false));
    assert_eq!(relay.exit_code(), 1);
    assert_eq!(relay.on_event(tick()), Directive::Nothing);
    relay.started(true);
    assert_eq!(relay.current(), state(Phase::Failed(Failure::CaptureStart), false));
    assert!(!relay.finish());
}

#[test]
fn a_tick_asks_for_a_grab_with_the_events_metadata() {
    let mut relay = running(&[]);
    let mut metadata = MetadataBag::new();
    metadata.insert("foo".to_string(), Parameter::Text("bar".to_string()));
    let mut same = MetadataBag::new();
    same.insert("foo".to_string(), Parameter::Text("bar".to_string()));
    assert_eq!(relay.on_event(input("tick", metadata)), Directive::Grab { metadata: same });
    assert_eq!(relay.current(), state(Phase::Running, true));
}

#[test]
fn no_frame_tick_is_a_no_op() {
    let mut relay = running(&[]);
    let Directive::Grab { metadata } = relay.on_event(tick()) else { panic!("no grab") };
    assert_eq!(relay.on_grab(metadata, GrabOutcome::Empty), Delivery::Nothing);
    assert_eq!(relay.current(), state(Phase::Running, true));
    assert_eq!(relay.exit_code(), 0);
    let mut published = Vec::new();
    let mut grabs = 0;
    serve(&mut relay, tick(), GrabOutcome::Frame(frame(4, 2)), &mut published, &mut grabs);
    assert_eq!(published.len(), 1);
}

#[test]
fn metadata_enrichment() {
    let mut relay = running(&[(Key::PixelFormat, "RGB8")]);
    let mut metadata = MetadataBag::new();
    metadata.insert("foo".to_string(), Parameter::Text("bar".to_string()));
    metadata.insert("width".to_string(), Parameter::Integer(1));
    metadata.insert("encoding".to_string(), Parameter::Text("jpeg".to_string()));
    let Directive::Grab { metadata } = relay.on_event(input("tick", metadata)) else {
        panic!("no grab")
    };
    let Delivery::Publish(out) = relay.on_grab(metadata, GrabOutcome::Frame(frame(640, 480)))
    else {
        panic!("no publish")
    };
    assert_eq!(out.output, "frame");
    assert_eq!(out.metadata.len(), 4);
    assert_eq!(out.metadata.get("foo"), Some(&Parameter::Text("bar".to_string())));
    assert_eq!(out.metadata.get("encoding"), Some(&Parameter::Text("RGB8".to_string())));
    assert_eq!(out.metadata.get("width"), Some(&Parameter::Integer(640)));
    assert_eq!(out.metadata.get("height"), Some(&Parameter::Integer(480)));
    assert_eq!(out.len, 640 * 480 * 3);
    assert_eq!(out.data, vec![7u8; 640 * 480 * 3]);
}

#[test]
fn metadata_carries_the_size_that_the_frame_reports() {
    let mut relay = running(&[(Key::ImageCols, "320"), (Key::ImageRows, "240"), (Key::PixelFormat, "BGR8")]);
    let Delivery::Publish(out) = relay.on_grab(MetadataBag::new(), GrabOutcome::Frame(frame(16, 8)))
    else {
        panic!("no publish")
    };
    assert_eq!(out.metadata.get("encoding"), Some(&Parameter::Text("BGR8".to_string())));
    assert_eq!(out.metadata.get("width"), Some(&Parameter::Integer(16)));
    assert_eq!(out.metadata.get("height"), Some(&Parameter::Integer(8)));
    assert_eq!(out.len, 16 * 8 * 3);
}

#[test]
fn stop_releases_resource_exactly_once() {
    let mut relay = running(&[]);
    let mut releases = 0;
    let mut grabs = 0;
    let mut published = Vec::new();
    serve(&mut relay, tick(), GrabOutcome::Frame(frame(2, 2)), &mut published, &mut grabs);
    if relay.on_event(Event::Stop) == Directive::Release {
        releases += 1;
    }
    assert_eq!(relay.current(), state(Phase::Stopped, false));
    for _ in 0..3 {
        serve(&mut relay, tick(), GrabOutcome::Frame(frame(2, 2)), &mut published, &mut grabs);
    }
    if relay.on_event(Event::Stop) == Directive::Release {
        releases += 1;
    }
    if relay.finish() {
        releases += 1;
    }
    assert_eq!(releases, 1);
    assert_eq!(grabs, 1);
    assert_eq!(published.len(), 1);
    assert_eq!(relay.on_grab(MetadataBag::new(), GrabOutcome::Frame(frame(2, 2))), Delivery::Nothing);
    assert_eq!(relay.current(), state(Phase::Stopped, false));
    assert_eq!(relay.exit_code(), 0);
}

#[test]
fn unknown_input_id_is_non_fatal() {
    let mut relay = running(&[]);
    assert_eq!(
        relay.on_event(input("unknown", MetadataBag::new())),
        Directive::Warn { message: "Ignoring unexpected input `unknown`".to_string() }
    );
    assert_eq!(relay.current(), state(Phase::Running, true));
    let mut published = Vec::new();
    let mut grabs = 0;
    serve(&mut relay, tick(), GrabOutcome::Frame(frame(2, 2)), &mut published, &mut grabs);
    assert_eq!(grabs, 1);
    assert_eq!(published.len(), 1);
    assert_eq!(relay.exit_code(), 0);
}

#[test]
fn ids_near_tick_are_unknown() {
    let mut relay = running(&[]);
    for id in ["", "Tick", "tick ", "tic", "ticks", "TICK"] {
        assert_eq!(
            relay.on_event(input(id, MetadataBag::new())),
            Directive::Warn { message: format!("Ignoring unexpected input `{id}`") }
        );
    }
    assert_eq!(relay.current(), state(Phase::Running, true));
}

#[test]
fn other_events_earn_a_warning() {
    let mut relay = running(&[]);
    assert_eq!(
        relay.on_event(Event::Other { description: "InputClosed { id: \"tick\" }".to_string() }),
        Directive::Warn {
            message: "Received unexpected input: InputClosed { id: \"tick\" }".to_string()
        }
    );
    assert_eq!(relay.current(), state(Phase::Running, true));
}

#[test]
fn a_failed_grab_is_fatal_and_leaves_the_source_to_release() {
    let mut relay = running(&[]);
    let Directive::Grab { metadata } = relay.on_event(tick()) else { panic!("no grab") };
    assert_eq!(relay.on_grab(metadata, GrabOutcome::Failed), Delivery::Abort);
    assert_eq!(relay.current(), state(Phase::Failed(Failure::Grab), true));
    assert_eq!(relay.exit_code(), 1);
    assert_eq!(relay.on_event(tick()), Directive::Nothing);
    assert_eq!(relay.on_event(Event::Stop), Directive::Nothing);
    assert!(relay.finish());
    assert_eq!(relay.current(), state(Phase::Failed(Failure::Grab), false));
    assert!(!relay.finish());
    assert_eq!(relay.exit_code(), 1);
}

#[test]
fn a_failed_publish_is_fatal() {
    let mut relay = running(&[]);
    let Delivery::Publish(_) = relay.on_grab(MetadataBag::new(), GrabOutcome::Frame(frame(2, 2)))
    else {
        panic!("no publish")
    };
    relay.on_publish(false);
    assert_eq!(relay.current(), state(Phase::Failed(Failure::Publish), true));
    assert_eq!(relay.exit_code(), 1);
    assert_eq!(relay.on_event(tick()), Directive::Nothing);
    assert!(relay.finish());
    assert!(!relay.finish());
}

#[test]
fn a_publish_that_went_well_changes_nothing() {
    let mut relay = running(&[]);
    relay.on_publish(true);
    assert_eq!(relay.current(), state(Phase::Running, true));
}

#[test]
fn events_that_run_out_leave_the_source_to_release() {
    let mut relay = running(&[]);
    assert!(relay.finish());
    assert_eq!(relay.current(), state(Phase::Stopped, false));
    assert!(!relay.finish());
    assert_eq!(relay.exit_code(), 0);
}

#[test]
fn failures_are_reported_with_context() {
    assert_eq!(
        Failure::CaptureStart.report("no such element"),
        "failed to start the capture source: no such element"
    );
    assert_eq!(Failure::Grab.report("poisoned"), "failed to grab a frame: poisoned");
    assert_eq!(Failure::Publish.report("closed"), "failed to publish a frame: closed");
}

#[test]
fn end_to_end_scenario() {
    let config = config(&[
        (Key::ImageCols, "320"),
        (Key::ImageRows, "240"),
        (Key::SourceFps, "30"),
        (Key::PixelFormat, "RGB8"),
    ]);
    let description = pipeline_description(&config);
    assert!(description.contains("width=320"));
    assert!(description.contains("height=240"));
    assert!(description.contains("framerate=30/1"));
    assert!(description.contains("format=RGB8"));

    let mut relay = Relay::new(&config);
    relay.started(true);
    let mut published = Vec::new();
    let mut grabs = 0;
    for _ in 0..3 {
        serve(&mut relay, tick(), GrabOutcome::Frame(frame(320, 240)), &mut published, &mut grabs);
    }
    assert_eq!(grabs, 3);
    assert_eq!(published.len(), 3);
    for out in &published {
        assert_eq!(out.output, "frame");
        assert_eq!(out.metadata.get("width"), Some(&Parameter::Integer(320)));
        assert_eq!(out.metadata.get("height"), Some(&Parameter::Integer(240)));
        assert_eq!(out.metadata.get("encoding"), Some(&Parameter::Text("RGB8".to_string())));
        assert_eq!(out.len, 320 * 240 * 3);
        assert_eq!(out.data.len(), 320 * 240 * 3);
    }
    assert_eq!(relay.on_event(Event::Stop), Directive::Release);
    assert!(!relay.finish());
    assert_eq!(relay.exit_code(), 0);
}

#[derive(Clone, Copy)]
enum Move {
    Started(bool),
    Tick,
    Unknown,
    Stop,
    Other,
    Frame,
    Empty,
    GrabFailed,
    Published(bool),
    Finish,
}

const MOVES: [Move; 12] = [
    Move::Started(true),
    Move::Started(false),
    Move::Tick,
    Move::Unknown,
    Move::Stop,
    Move::Other,
    Move::Frame,
    Move::Empty,
    Move::GrabFailed,
    Move::Published(true),
    Move::Published(false),
    Move::Finish,
];

/// Makes one move and says whether the relay asked for a grab, a publish, a release.
fn make(relay: &mut Relay, step: Move) -> (bool, bool, bool) {
    match step {
        Move::Started(ok) => {
            relay.started(ok);
            (false, false, false)
        }
        Move::Tick | Move::Unknown | Move::Stop | Move::Other => {
            let event = match step {
                Move::Tick => tick(),
                Move::Unknown => input("unknown", MetadataBag::new()),
                Move::Stop => Event::Stop,
                _ => Event::Other { description: String::new() },
            };
            match relay.on_event(event) {
                Directive::Grab { .. } => (true, false, false),
                Directive::Release => (false, false, true),
                _ => (false, false, false),
            }
        }
        Move::Frame | Move::Empty | Move::GrabFailed => {
            let outcome = match step {
                Move::Frame => GrabOutcome::Frame(frame(1, 1)),
                Move::Empty => GrabOutcome::Empty,
                _ => GrabOutcome::Failed,
            };
            let publish = matches!(relay.on_grab(MetadataBag::new(), outcome), Delivery::Publish(_));
            (false, publish, false)
        }
        Move::Published(ok) => {
            relay.on_publish(ok);
            (false, false, false)
        }
        Move::Finish => (false, false, relay.finish()),
    }
}

fn is_valid(state: RelayState) -> bool {
    match state.phase {
        Phase::Uninitialized | Phase::Stopped | Phase::Failed(Failure::CaptureStart) => {
            !state.holding
        }
        Phase::Running => state.holding,
        Phase::Failed(_) => true,
    }
}

#[test]
fn every_run_of_four_moves_keeps_the_rules() {
    let config = config(&[]);
    for code in 0..12usize.pow(4) {
        let mut relay = Relay::new(&config);
        let mut releases = 0;
        let mut stopped = false;
        let mut rest = code;
        for _ in 0..4 {
            let step = MOVES[rest % 12];
            rest /= 12;
            let before = relay.current();
            let (grab, publish, release) = make(&mut relay, step);
            let after = relay.current();
            assert!(is_valid(after));
            if grab || publish {
                assert_eq!(before.phase, Phase::Running);
                assert!(!stopped);
            }
            if grab || publish || release {
                assert!(before.holding);
            }
            if release {
                releases += 1;
                assert!(!after.holding);
            }
            if let Phase::Failed(_) = before.phase {
                assert_eq!(after.phase, before.phase);
                assert!(!grab && !publish);
            }
            if before.phase == Phase::Stopped {
                assert_eq!(after, before);
            }
            if matches!(step, Move::Stop) && before.phase == Phase::Running {
                assert!(release);
                stopped = true;
            }
        }
        assert!(releases <= 1);
        if stopped {
            assert_eq!(releases, 1);
            assert_eq!(relay.current(), state(Phase::Stopped, false));
        }
    }
}
