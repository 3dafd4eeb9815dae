# aiedf_pipeline

A packet pipeline in three stages:

1. **Ingress.** Datagrams are read from one socket per class by deficit round robin and put into
   a queue per class.
2. **Scheduling.** One of several earliest-deadline-first schedulers takes packets from those
   queues, works on them and puts them into an output queue per class: a single-threaded one, one
   with a bounded heap, three workers with adaptive quotas, a shared queue (with or without
   virtual deadlines), a clairvoyant scheduler by slack, and a mixed-criticality scheduler with
   three channels.
3. **Egress.** Packets leave in strict priority, each class taking its sockets in turn.

Latencies, drops and load are collected, summed up and reported ten times a second.

## Layout

- `src/` is the verified library. It holds the data structures, the schedulers' decisions, the
  statistics, the command line and the configuration, each with its contract. Time, packet
  numbers and buffers are passed in, so nothing in it depends on a clock or on global state.
  - `channel.rs` and `event_channel.rs` hold the calls into `crossbeam_channel`, with the contracts
    that the proofs rely on; `buffer_pool.rs` has two such calls into `std::sync::Arc`.
  - `scheduler/` holds one module per scheduler and the parts that they share.
  - Functions named `law_..` state what holds of the library as a whole.
- `app/` is the program around it: threads, locks, the clock, sockets, the metrics server and the
  monitor.
- `tests/` runs the library on concrete values.

## Time and arithmetic

Times and durations are whole nanoseconds in a `u64`, which saturate. Averages, deviations,
percentiles and costs are integers, rounded as their contracts say. Counters start over after the
largest `u64`.
