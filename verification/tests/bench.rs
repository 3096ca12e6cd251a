use orynth::bench::{
    benchmark_events, expected_after_cut, fault_cuts, fuzz_smoke, leftover_complaint, parse_bench,
    parse_resident, percentile_pair, render_fuzz, render_memory, render_report, smoke_input,
    take_option, BenchCommand, Measurement,
};
use orynth::event_store::EventStore;
use orynth::ids::IdSource;
use orynth::kernel::EventKind;
use orynth::memory_store::InMemoryEventStore;
use orynth::state::RunStatus;

fn owned(args: &[&str]) -> Vec<String> {
    args.iter().map(|arg| (*arg).to_owned()).collect()
}

#[test]
fn measurements_are_tabulated() {
    let measurement = Measurement {
        area: "ipc".to_owned(),
        scenario: "s".to_owned(),
        size: 10,
        samples: 3,
        median_us: 5,
        p95_us: 7,
        rss_before_kib: None,
        rss_after_kib: Some(12),
        operations: 10,
        notes: "a\tb\nc\r".to_owned(),
    };
    assert_eq!(measurement.line(), "ipc\ts\t10\t3\t5\t7\tNA\t12\t10\ta b c ");
    let report = render_report(&vec![measurement]);
    assert!(report.starts_with("area\tscenario\t"));
    assert!(report.ends_with("\ta b c \n"));
    assert_eq!(render_report(&vec![]), format!("{}\n", Measurement::header()));
}

#[test]
fn options_are_taken_out_of_the_arguments() {
    let mut args = owned(&["a", "--x", "1", "b", "--x"]);
    assert_eq!(take_option(&mut args, "--x"), Ok(Some("1".to_owned())));
    assert_eq!(args, owned(&["a", "b", "--x"]));
    assert_eq!(
        take_option(&mut args, "--x"),
        Err("--x requires a value".to_owned())
    );
    assert_eq!(take_option(&mut args, "--y"), Ok(None));
}

#[test]
fn harness_commands_are_read() {
    let parse = |args: &[&str]| {
        let mut args = owned(args);
        let command = parse_bench(&mut args);
        (command, args)
    };
    assert_eq!(
        parse(&[]).0,
        Ok(BenchCommand::All { samples: 3, output: None, startup_binary: None })
    );
    assert_eq!(
        parse(&["startup", "--samples", "0", "--output", "o", "--binary", "b", "left"]),
        (
            Ok(BenchCommand::Startup {
                samples: 1,
                output: Some("o".to_owned()),
                binary: Some("b".to_owned()),
            }),
            owned(&["left"])
        )
    );
    assert_eq!(
        parse(&["memory", "--agents", "4"]).0,
        Ok(BenchCommand::Memory { agents: 4, hold_ms: 500 })
    );
    assert_eq!(parse(&["memory"]).0, Err("memory requires --agents".to_owned()));
    assert_eq!(
        parse(&["memory", "--agents", "4", "--hold-ms", "x"]).0,
        Err("--hold-ms must be numeric".to_owned())
    );
    assert_eq!(
        parse(&["fuzz-smoke"]).0,
        Ok(BenchCommand::FuzzSmoke { iterations: 10000 })
    );
    assert_eq!(parse(&["faults"]).0, Ok(BenchCommand::Faults));
    assert_eq!(
        parse(&["dance"]).0,
        Err("unknown benchmark command \"dance\"".to_owned())
    );
    assert_eq!(
        parse(&["--samples", "x"]).0,
        Err("--samples must be numeric".to_owned())
    );
    assert_eq!(
        leftover_complaint(&owned(&["a", "b"])),
        "unexpected arguments: [\"a\", \"b\"]"
    );
}

#[test]
fn percentiles_are_taken_from_the_sorted_values() {
    assert_eq!(percentile_pair(&vec![9]), (9, 9));
    assert_eq!(percentile_pair(&vec![3, 1, 2]), (2, 2));
    let values: Vec<u128> = (0..101).rev().collect();
    assert_eq!(percentile_pair(&values), (50, 95));
}

#[test]
fn benchmark_histories_are_whole_runs() {
    let mut ids = IdSource::with_prefix(5);
    for (size, expected) in [(0usize, 6usize), (6, 6), (20, 20)] {
        let events = benchmark_events(&mut ids, 1, size);
        assert_eq!(events.len(), expected);
        let run_id = events[0].run_id;
        let mut store = InMemoryEventStore::new();
        store.append_batch(&events).unwrap();
        let state = store.reconstruct(run_id).unwrap();
        assert_eq!(state.status, RunStatus::Completed);
        assert_eq!(state.agents.value_at(0).chunks_received as usize, expected - 6);
        assert!(matches!(events[1].kind, EventKind::TaskCreated { .. }));
    }
}

#[test]
fn made_up_bytes_are_refused() {
    assert_eq!(smoke_input(0), vec![0]);
    assert_eq!(smoke_input(260), vec![4, 1, 255, 0]);
    assert_eq!(smoke_input(6), vec![6, 0, 255, 0, 127, 6, 6]);
    let (exercised, rejected) = fuzz_smoke(50);
    assert_eq!(exercised, 150);
    assert_eq!(rejected, 150);
    assert_eq!(
        render_fuzz(50, exercised, rejected),
        "FUZZ_SMOKE\titerations=50\tcases=150\trejected=150\tpanics=0"
    );
}

#[test]
fn torn_writes_are_cut_at_the_edges() {
    assert_eq!(fault_cuts(10), vec![0, 1, 5, 9, 10]);
    assert_eq!(fault_cuts(0), vec![0, 1, 0, 0, 0]);
    assert_eq!(expected_after_cut(10, 10), 2);
    assert_eq!(expected_after_cut(9, 10), 1);
}

#[test]
fn resident_sets_are_read_from_a_status_text() {
    assert_eq!(
        parse_resident("Name:\tx\nVmRSS:\t    1234 kB\nVmRSS: 9 kB\n"),
        Some(1234)
    );
    assert_eq!(parse_resident("VmRSS:\n"), None);
    assert_eq!(parse_resident("Name: x"), None);
    assert_eq!(
        render_memory(4, None, Some(7), 9),
        "MEMORY\tagents=4\trss_before_kib=NA\trss_after_kib=7\tevents=9\tcontext_blocks=4"
    );
}
