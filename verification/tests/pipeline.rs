use aiedf_pipeline::channel::MAX_CHANNEL_CAPACITY;
use aiedf_pipeline::cli::{
    normalize_metrics_bind, parse_cli_options, parse_gui_command, parse_scheduler, GuiCommand,
};
use aiedf_pipeline::pipeline::{
    build_priority_channels, expected_latencies, input_sockets, latency_table, output_sockets,
    report_is_due, Scheduler,
};
use aiedf_pipeline::priority::{Priority, PriorityTable};
use aiedf_pipeline::threading::{service_class, thread_class, SchedulingPolicy};
use aiedf_pipeline::time::{Duration, Instant};
use aiedf_pipeline::{CoreAssignment, Pipeline, PipelineConfig, SchedulerKind, SocketConfig};

fn strings(args: &[&str]) -> Vec<String> {
    args.iter().map(|arg| arg.to_string()).collect()
}

#[test]
fn default_configuration() {
    let config = PipelineConfig::default();
    assert_eq!(config.scheduler, SchedulerKind::Single);
    assert_eq!(config.cores.ingress, 0);
    assert_eq!(config.cores.edf_dispatcher, 1);
    assert_eq!(config.cores.edf_workers, vec![1, 2]);
    assert_eq!(config.cores.egress, 2);
    assert_eq!(config.queues.ingress_to_edf[Priority::High], 16);
    assert_eq!(config.queues.edf_to_egress[Priority::Low], 128);
    assert_eq!(config.ingress.quantums[Priority::High], 64);
    assert_eq!(config.ingress.quantums[Priority::Medium], 8);
    assert_eq!(config.ingress.quantums[Priority::BestEffort], 1);
    assert_eq!(config.edf.max_heap_size, 1);
    assert!(config.is_buildable());
}

#[test]
fn too_large_channels_are_not_buildable() {
    let mut config = PipelineConfig::default();
    *config.queues.edf_to_egress.get_mut(Priority::Low) = MAX_CHANNEL_CAPACITY + 1;
    assert!(!config.is_buildable());
}

#[test]
fn workers_fall_back_to_the_core_of_the_dispatcher() {
    let mut cores = CoreAssignment::default();
    assert_eq!(cores.worker_cores(), vec![1, 2]);
    assert_eq!(cores.core_of_worker(0), 1);
    assert_eq!(cores.core_of_worker(1), 2);
    assert_eq!(cores.core_of_worker(2), 1);
    assert_eq!(cores.channel_cores(), (1, 2));
    cores.edf_workers = Vec::new();
    assert_eq!(cores.worker_cores(), vec![1]);
    assert_eq!(cores.channel_cores(), (1, 1));
}

#[test]
fn sockets_serve_three_flows() {
    let inputs = input_sockets();
    let outputs = output_sockets();
    let ports: Vec<u16> = inputs.iter().map(|socket| socket.port).collect();
    assert_eq!(ports, vec![8080, 8081, 8082]);
    let ports: Vec<u16> = outputs.iter().map(|socket| socket.port).collect();
    assert_eq!(ports, vec![9080, 9081, 9082]);
    assert_eq!(inputs[0].address, "127.0.0.1");
    assert_eq!(inputs[0].priority, Priority::High);
    assert_eq!(inputs[0].latency_budget, Duration::from_millis(1));
    assert_eq!(inputs[1].priority, Priority::Medium);
    assert_eq!(inputs[1].latency_budget, Duration::from_millis(50));
    assert_eq!(outputs[2].priority, Priority::Low);
    assert_eq!(outputs[2].latency_budget, Duration::from_millis(100));
    let table = latency_table(&inputs, &outputs);
    assert_eq!(table[Priority::Medium], Duration::from_millis(50));
    assert_eq!(table[Priority::BestEffort], Duration::from_millis(200));
}

#[test]
fn budgets_of_inputs_and_outputs_are_combined() {
    let socket = |priority: Priority, millis: u64| SocketConfig {
        address: "127.0.0.1".to_string(),
        port: 1,
        latency_budget: Duration::from_millis(millis),
        priority,
    };
    let inputs = vec![socket(Priority::High, 5), socket(Priority::High, 7)];
    let outputs = vec![socket(Priority::High, 6), socket(Priority::High, 9)];
    assert_eq!(latency_table(&inputs, &outputs)[Priority::High], Duration::from_millis(9));
    assert_eq!(expected_latencies(&inputs, &outputs)[Priority::High], Duration::from_millis(6));
    assert_eq!(
        expected_latencies(&inputs, &outputs)[Priority::Low],
        Duration::from_millis(200)
    );
}

#[test]
fn channels_have_the_capacities_asked_for() {
    let (senders, receivers) = build_priority_channels(&PriorityTable::of(1, 2, 3, 4));
    assert_eq!(senders[Priority::High].capacity(), Some(1));
    assert_eq!(senders[Priority::BestEffort].capacity(), Some(4));
    assert!(senders[Priority::Low].same_channel(&senders[Priority::Low]));
    assert_eq!(receivers[Priority::Medium].capacity(), Some(2));
}

#[test]
fn pipelines_hold_the_scheduler_asked_for() {
    let kinds = [
        SchedulerKind::Single,
        SchedulerKind::MultiWorker,
        SchedulerKind::Global,
        SchedulerKind::GlobalVD,
        SchedulerKind::Clairvoyant,
        SchedulerKind::MCEDFElastic,
        SchedulerKind::SingleCPUEDF,
    ];
    for kind in kinds {
        let mut config = PipelineConfig::default();
        config.scheduler = kind;
        let pipeline = Pipeline::new(config);
        let right = match pipeline.scheduler {
            Scheduler::Single(_) => kind == SchedulerKind::Single,
            Scheduler::MultiWorker(_) => kind == SchedulerKind::MultiWorker,
            Scheduler::Global(_) => kind == SchedulerKind::Global,
            Scheduler::GlobalVD(_) => kind == SchedulerKind::GlobalVD,
            Scheduler::Clairvoyant(_) => kind == SchedulerKind::Clairvoyant,
            Scheduler::MCEDFElastic(_) => kind == SchedulerKind::MCEDFElastic,
            Scheduler::SingleCPUEDF(_) => kind == SchedulerKind::SingleCPUEDF,
        };
        assert!(right);
        assert_eq!(pipeline.input_sockets.len(), 3);
        assert_eq!(
            pipeline.egress_drr.priority_receivers[Priority::High].capacity(),
            Some(16)
        );
    }
}

#[test]
fn input_sockets_go_where_they_are_read() {
    let mut pipeline = Pipeline::new(PipelineConfig::default());
    assert_eq!(pipeline.register_input(0), 0);
    assert_eq!(pipeline.register_input(1), 0);
    let flow = pipeline.ingress_drr.flows[Priority::High].unwrap();
    assert_eq!(flow.quantum, 64);
    assert_eq!(flow.sockets, 1);
    assert_eq!(flow.latency_budget, Duration::from_millis(1));
    assert!(pipeline.ingress_drr.flows[Priority::Low].is_none());

    let mut config = PipelineConfig::default();
    config.scheduler = SchedulerKind::SingleCPUEDF;
    let mut pipeline = Pipeline::new(config);
    assert_eq!(pipeline.register_input(2), 0);
    assert!(pipeline.ingress_drr.flows[Priority::Low].is_none());
    match &pipeline.scheduler {
        Scheduler::SingleCPUEDF(scheduler) => {
            assert_eq!(
                scheduler.socket_budgets[Priority::Low],
                vec![Duration::from_millis(100)]
            );
        }
        _ => panic!("wrong scheduler"),
    }
}

#[test]
fn reports_are_due_ten_times_a_second() {
    let last = Instant { nanos: 1_000 };
    assert!(!report_is_due(last, Instant { nanos: 100_000_999 }));
    assert!(report_is_due(last, Instant { nanos: 100_001_000 }));
    assert!(!report_is_due(last, Instant { nanos: 0 }));
}

#[test]
fn importance_decides_the_thread_class() {
    let class = |priority: i32| {
        let class = thread_class(priority);
        (class.policy, class.sched_priority)
    };
    assert_eq!(class(7), (SchedulingPolicy::Fifo, 90));
    assert_eq!(class(3), (SchedulingPolicy::Fifo, 90));
    assert_eq!(class(2), (SchedulingPolicy::Fifo, 70));
    assert_eq!(class(1), (SchedulingPolicy::RoundRobin, 30));
    assert_eq!(class(0), (SchedulingPolicy::Other, 0));
    assert_eq!(class(-4), (SchedulingPolicy::Other, 0));
    assert_eq!(service_class(3), 0x19);
    assert_eq!(service_class(2), 0x19);
    assert_eq!(service_class(1), 0x15);
    assert_eq!(service_class(0), 0x09);
}

#[test]
fn scheduler_names() {
    assert_eq!(parse_scheduler("multi"), Some(SchedulerKind::MultiWorker));
    assert_eq!(parse_scheduler("Multi-Worker"), Some(SchedulerKind::MultiWorker));
    assert_eq!(parse_scheduler("multi_worker"), Some(SchedulerKind::MultiWorker));
    assert_eq!(parse_scheduler("GEDF"), Some(SchedulerKind::Global));
    assert_eq!(parse_scheduler("g-edf"), Some(SchedulerKind::Global));
    assert_eq!(parse_scheduler("global"), Some(SchedulerKind::Global));
    assert_eq!(parse_scheduler("gedf-vd"), Some(SchedulerKind::GlobalVD));
    assert_eq!(parse_scheduler("G-EDF-VD"), Some(SchedulerKind::GlobalVD));
    assert_eq!(parse_scheduler("global-vd"), Some(SchedulerKind::GlobalVD));
    assert_eq!(parse_scheduler("single"), Some(SchedulerKind::Single));
    assert_eq!(parse_scheduler("LEGACY"), Some(SchedulerKind::Single));
    assert_eq!(parse_scheduler("cedf"), None);
    assert_eq!(parse_scheduler(""), None);
}

#[test]
fn addresses_get_a_port() {
    assert_eq!(normalize_metrics_bind("0.0.0.0"), "0.0.0.0:9999");
    assert_eq!(normalize_metrics_bind("0.0.0.0:80"), "0.0.0.0:80");
    assert_eq!(normalize_metrics_bind(""), ":9999");
}

#[test]
fn command_line_of_the_pipeline() {
    let options = parse_cli_options(&strings(&[]));
    assert_eq!(options.scheduler, SchedulerKind::Single);
    assert_eq!(options.metrics_bind, "127.0.0.1:9999");

    let options = parse_cli_options(&strings(&["--scheduler=gedf", "--metrics-bind=host"]));
    assert_eq!(options.scheduler, SchedulerKind::Global);
    assert_eq!(options.metrics_bind, "host:9999");

    let options = parse_cli_options(&strings(&[
        "--scheduler",
        "multi",
        "extra",
        "--metrics-host",
        "a:1",
    ]));
    assert_eq!(options.scheduler, SchedulerKind::MultiWorker);
    assert_eq!(options.metrics_bind, "a:1");

    let options = parse_cli_options(&strings(&[
        "--scheduler=multi",
        "--scheduler",
        "unknown",
        "--other=x",
        "--metrics-bind",
    ]));
    assert_eq!(options.scheduler, SchedulerKind::MultiWorker);
    assert_eq!(options.metrics_bind, "127.0.0.1:9999");
}

#[test]
fn command_line_of_the_monitor() {
    let address = |args: &[&str]| match parse_gui_command(&strings(args)) {
        GuiCommand::Connect(address) => address,
        GuiCommand::Help(_) => panic!("asked for help"),
    };
    assert_eq!(address(&[]), "127.0.0.1:9999");
    assert_eq!(address(&["--server=h:1"]), "h:1");
    assert_eq!(address(&["--host", "h:2"]), "h:2");
    assert_eq!(address(&["h:3"]), "h:3");
    assert_eq!(address(&["--metrics"]), "127.0.0.1:9999");
    assert_eq!(address(&["--other=h:4"]), "127.0.0.1:9999");
    match parse_gui_command(&strings(&["h:5", "-h", "h:6"])) {
        GuiCommand::Help(address) => assert_eq!(address, "h:5"),
        GuiCommand::Connect(_) => panic!("asked for help"),
    }
}
