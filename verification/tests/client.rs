use liquid_cache::client::FlightRequest;
use liquid_cache::client::FlightStep;
use liquid_cache::client::FlightStream;
use liquid_cache::client::LiquidCacheClientExec;
use liquid_cache::client::ObjectStoreOptions;
use liquid_cache::client::PlanHandle;
use liquid_cache::client::PlanRegisterState;
use liquid_cache::client::PollAction;
use liquid_cache::metrics::FlightStreamMetrics;
use liquid_cache::metrics::StartableTime;
use liquid_cache::modes::CacheMode;

const HANDLE: PlanHandle = PlanHandle { bytes: [7; 16] };

fn fetch(partition: u32) -> FlightStep {
    FlightStep::Fetch { handle: HANDLE, partition }
}

#[test]
fn only_the_first_registers() {
    let mut state = PlanRegisterState::NotRegistered;
    let mut first = FlightRequest::new(&mut state, 2, HANDLE, 7);
    assert_eq!(state, PlanRegisterState::InProgress);
    let second = FlightRequest::new(&mut state, 2, HANDLE, 8);
    assert_eq!(state, PlanRegisterState::InProgress);

    assert_eq!(second.next_step(state), FlightStep::Wait);
    assert_eq!(first.next_step(state), FlightStep::RegisterObjectStore(0));
    first.step_done(&mut state);
    assert_eq!(first.next_step(state), FlightStep::RegisterObjectStore(1));
    first.step_done(&mut state);
    assert_eq!(first.next_step(state), FlightStep::RegisterPlan(HANDLE));
    first.step_done(&mut state);
    assert_eq!(second.next_step(state), FlightStep::Wait);
    assert_eq!(first.next_step(state), FlightStep::PublishRegistered);
    first.step_done(&mut state);
    assert_eq!(state, PlanRegisterState::Registered);
    assert_eq!(first.next_step(state), fetch(7));
    assert_eq!(second.next_step(state), fetch(8));

    let third = FlightRequest::new(&mut state, 2, HANDLE, 9);
    assert_eq!(third.next_step(state), fetch(9));
    assert_eq!(state, PlanRegisterState::Registered);
}

// Three callers take turns; the server is asked for the registration once, and for results only
// after that.
#[test]
fn callers_share_one_registration() {
    let mut state = PlanRegisterState::NotRegistered;
    let mut waiting: Vec<FlightRequest> = Vec::new();
    for partition in 0..3 {
        waiting.push(FlightRequest::new(&mut state, 2, HANDLE, partition));
    }
    let mut served = Vec::new();
    let mut turn = 0;
    while !waiting.is_empty() {
        turn = (turn + 1) % waiting.len();
        match waiting[turn].next_step(state) {
            FlightStep::Wait => {}
            FlightStep::PublishRegistered => waiting[turn].step_done(&mut state),
            step @ FlightStep::Fetch { .. } => {
                served.push(step);
                waiting.remove(turn);
            }
            step => {
                served.push(step);
                waiting[turn].step_done(&mut state);
            }
        }
    }
    assert_eq!(state, PlanRegisterState::Registered);
    assert_eq!(
        served[..3],
        [
            FlightStep::RegisterObjectStore(0),
            FlightStep::RegisterObjectStore(1),
            FlightStep::RegisterPlan(HANDLE),
        ]
    );
    assert_eq!(served.len(), 6);
    for partition in 0..3 {
        assert_eq!(served[3..].iter().filter(|step| **step == fetch(partition)).count(), 1);
    }
}

#[test]
fn partitions_are_cut_to_32_bits() {
    let mut state = PlanRegisterState::Registered;
    let request = FlightRequest::new(&mut state, 0, HANDLE, (1usize << 32) + 5);
    assert_eq!(request.next_step(state), fetch(5));
}

#[test]
fn states_have_numbers() {
    for (n, state) in [
        PlanRegisterState::NotRegistered,
        PlanRegisterState::InProgress,
        PlanRegisterState::Registered,
    ]
    .into_iter()
    .enumerate()
    {
        assert_eq!(state.to_number(), n);
        assert_eq!(PlanRegisterState::from_number(n), Some(state));
    }
    assert_eq!(PlanRegisterState::from_number(3), None);
}

#[test]
fn plans_have_random_handles() {
    let stores = || {
        vec![ObjectStoreOptions { url: "s3://bucket".to_string(), options: Vec::new() }]
    };
    let a = LiquidCacheClientExec::new("http://host:1".to_string(), CacheMode::Arrow, stores());
    let b = LiquidCacheClientExec::new("http://host:1".to_string(), CacheMode::Arrow, stores());
    assert_ne!(a.get_uuid(), b.get_uuid());
    assert_eq!(a.get_uuid().bytes[6] >> 4, 4);
    assert_eq!(a.get_uuid().bytes[8] >> 6, 2);
    assert_eq!(
        a.fmt_as(false, "[]"),
        "LiquidCacheClientExec: server=http://host:1, mode=arrow, object_stores=[]"
    );
    assert_eq!(a.fmt_as(true, "[x]"), "server=http://host:1, mode=arrow, object_stores=[x]");
    assert_eq!(a.object_stores()[0].url, "s3://bucket");
    let mut state = PlanRegisterState::NotRegistered;
    let mut request = a.execute(&mut state, 4);
    assert_eq!(request.next_step(state), FlightStep::RegisterObjectStore(0));
    request.step_done(&mut state);
    assert_eq!(request.next_step(state), FlightStep::RegisterPlan(a.get_uuid()));
    request.step_done(&mut state);
    request.step_done(&mut state);
    assert_eq!(
        request.next_step(state),
        FlightStep::Fetch { handle: a.get_uuid(), partition: 4 }
    );
    assert_eq!(a.cache_server(), "http://host:1");
}

#[test]
fn timers_add_what_passed() {
    let mut time = StartableTime::new();
    time.stop(5);
    assert_eq!(time.metrics, 0);
    time.start(10);
    time.stop(25);
    assert_eq!(time.metrics, 15);
    time.start(30);
    time.stop(30);
    assert_eq!(time.metrics, 16);
    assert_eq!(time.start, None);
    time.metrics = u64::MAX;
    time.start(0);
    time.stop(3);
    assert_eq!(time.metrics, 2);
}

#[test]
fn pending_is_counted() {
    let mut metrics = FlightStreamMetrics::new();
    metrics.start_pending(100);
    metrics.start_pending(150);
    assert_eq!(metrics.pending_count, 2);
    metrics.stop_pending(180);
    metrics.stop_pending(190);
    assert_eq!(metrics.time_pending.metrics, 80);
    assert_eq!(metrics.last_pending_start, None);
    metrics.time_reading_total.start(100);
    metrics.time_reading_total.stop(130);
    let stats = metrics.get_pending_stats();
    assert_eq!(stats.total_pending_time, 80);
    assert_eq!(stats.pending_count, 2);
    assert_eq!(stats.pending_ratio, 2);
}

#[test]
fn stream_runs_one_timer_at_a_time() {
    let mut stream = FlightStream::new();
    assert_eq!(stream.begin_poll(10), PollAction::PollConnection);
    assert!(stream.metrics().init_stream_time.start.is_some());
    stream.pending(12);
    assert_eq!(stream.metrics().pending_count, 1);

    assert_eq!(stream.begin_poll(20), PollAction::PollConnection);
    assert_eq!(stream.connected(30), PollAction::PollStream);
    assert_eq!(stream.metrics().init_stream_time.metrics, 20);
    assert!(stream.metrics().get_stream_time.start.is_some());

    stream.stream_polled(34);
    assert_eq!(stream.metrics().get_stream_time.metrics, 4);
    assert!(stream.metrics().processing_stream_time.start.is_some());
    assert!(stream.needs_mapping());
    stream.batch_arrived(36);
    stream.batch_ready(3, 100, 40);
    assert!(!stream.needs_mapping());
    assert_eq!(stream.metrics().output_rows, 3);
    assert_eq!(stream.metrics().bytes_decoded, 100);
    assert_eq!(stream.metrics().time_pending.metrics, 24);
    assert_eq!(stream.metrics().time_processing.metrics, 22);

    assert_eq!(stream.begin_poll(50), PollAction::PollStream);
    stream.stream_polled(51);
    stream.finished(60);
    assert_eq!(stream.metrics().poll_count, 2);
    assert_eq!(stream.metrics().time_reading_total.metrics, 50);
    assert_eq!(stream.metrics().time_processing.start, None);
}
