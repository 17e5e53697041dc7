use scavenger::buffer::BufferKind;
use scavenger::miner::{scan_plots, Cfg, Intake, Miner, PlotFile, Poll, State, UNBOUNDED};
use scavenger::plot::{FileMeta, NONCE_SIZE};
use scavenger::task::Action;
use scavenger::worker::NonceData;

fn cfg() -> Cfg {
    Cfg {
        plot_dirs: vec!["/plots".to_string()],
        hdd_use_direct_io: false,
        hdd_reader_thread_count: 0,
        cpu_worker_thread_count: 4,
        gpu_worker_thread_count: 0,
        cpu_nonces_per_cache: 65536,
        gpu_nonces_per_cache: 262144,
        gpu_platform: 0,
        gpu_device: 0,
        cpu_thread_pinning: false,
        account_id: 1234567890,
        target_deadline: 2000,
        url: "http://pool.example:8124".to_string(),
        secret_phrase: String::new(),
        timeout: 5000,
        get_mining_info_interval: 3000,
        hdd_wakeup_after: 240,
    }
}

fn file(name: &str, drive_id: &str, nonces: u64, modified: i64) -> PlotFile {
    PlotFile {
        name: name.to_string(),
        drive_id: drive_id.to_string(),
        meta: FileMeta { fh: 0, size: nonces * NONCE_SIZE, sector_size: 4096, modified },
    }
}

fn files() -> Vec<PlotFile> {
    vec![
        file("1_0_100", "sda", 100, 10),
        file("1_100_100", "sdb", 100, 20),
        file("readme.txt", "sda", 0, 30),
        file("1_200_100", "sda", 100, 40),
        file("1_300_100", "sdc", 99, 50),
        file("1_400_100", "sdb", 100, 5),
    ]
}

fn nonce(deadline: u64, last: bool) -> NonceData {
    NonceData { height: 100, nonce: 7, deadline, reader_task_processed: last }
}

fn seen(s: &State) -> (u64, u64, u64, bool, usize) {
    (s.height(), s.best_deadline(), s.base_target(), s.scanning(), s.processed_reader_tasks())
}

#[test]
fn test_new_miner() {
    let miner = Miner::new(&cfg(), &files(), 0);
    assert_eq!(seen(miner.state()), (0, u64::MAX, 1, false, 0));
    assert_eq!(miner.reader_task_count(), 2);
    assert_eq!(miner.reader_thread_count(), 2);
    assert_eq!(miner.worker_count(), 4);
    assert_eq!(miner.account_id(), 1234567890);
    assert_eq!(miner.target_deadline(), 2000);
    assert_eq!(miner.get_mining_info_interval(), 3000);
    assert_eq!(miner.wakeup_after(), 240_000);
    assert_eq!(miner.pool().capacity(), 8);
    assert_eq!(miner.pool().empty(BufferKind::Cpu), 8);
    assert_eq!(miner.pool().queue_capacity(BufferKind::Gpu), 0);
    assert_eq!(miner.pool().population().len(), 8);
    assert_eq!(miner.pool().population()[0].capacity, 65536 * 64);
    assert_eq!(miner.reader().drive_count(), 2);
}

#[test]
fn miner_sizes_follow_the_options() {
    let mut c = cfg();
    c.hdd_reader_thread_count = 7;
    c.gpu_worker_thread_count = 1;
    c.cpu_worker_thread_count = 2;
    c.cpu_nonces_per_cache = 10;
    c.hdd_wakeup_after = 0;
    let miner = Miner::new(&c, &files(), 1024);
    assert_eq!(miner.reader_thread_count(), 7);
    assert_eq!(miner.reader_task_count(), 2);
    assert_eq!(miner.worker_count(), 3);
    assert_eq!(miner.wakeup_after(), 0);
    assert_eq!(miner.pool().capacity(), 6);
    assert_eq!(miner.pool().queue_capacity(BufferKind::Cpu), 4);
    assert_eq!(miner.pool().queue_capacity(BufferKind::Gpu), 2);
    let buffers = miner.pool().population();
    let sizes: Vec<usize> = buffers.iter().map(|b| b.capacity).collect();
    assert_eq!(sizes, vec![65536, 65536, 640, 640, 640, 640]);
    assert!(buffers[0].is_gpu() && buffers[1].is_gpu() && !buffers[2].is_gpu());
    // without a GPU worker the size of the work group does not matter
    c.gpu_worker_thread_count = 0;
    let miner = Miner::new(&c, &files(), usize::MAX);
    assert_eq!(miner.pool().capacity(), 4);
    assert_eq!(miner.pool().queue_capacity(BufferKind::Gpu), 0);
}

#[test]
fn the_scan_sorts_plots_into_drives() {
    let drives = scan_plots(&files(), false);
    assert_eq!(drives.len(), 2);
    assert_eq!(drives[0].id(), "sda");
    assert_eq!(drives[1].id(), "sdb");
    let starts = |i: usize| -> Vec<u64> { drives[i].plots().iter().map(|p| p.start_nonce()).collect() };
    assert_eq!(starts(0), vec![0, 200]);
    assert_eq!(starts(1), vec![100, 400]);
    // "readme.txt" is no plot, and the file on sdc is one nonce short
    assert_eq!(scan_plots(&Vec::new(), false).len(), 0);
    assert_eq!(scan_plots(&vec![file("x_y_z", "sda", 0, 0), file("1_2", "sdb", 0, 0)], true).len(), 0);
}

#[test]
fn the_scan_passes_direct_io_on_to_the_plots() {
    let found = vec![file("1_0_100", "sda", 100, 0), file("1_100_10", "sda", 10, 0)];
    let direct = scan_plots(&found, true);
    assert!(direct[0].plots()[0].use_direct_io());
    // 10 nonces are fewer than the 64 scoops of a sector
    assert!(!direct[0].plots()[1].use_direct_io());
    let buffered = scan_plots(&found, false);
    assert!(!buffered[0].plots()[0].use_direct_io());
    assert!(!buffered[0].plots()[0].is_dummy());
}

#[test]
fn the_miner_reads_the_newest_plot_of_a_drive_first() {
    let mut miner = Miner::new(&cfg(), &files(), 0);
    assert_eq!(miner.on_mining_info(500, 1000), Poll::NewRound);
    let round = miner.start_reading(1, &[3; 32]);
    assert_eq!(round.interrupts, 0);
    assert_eq!(round.tasks.len(), 2);
    // on sda the plot at nonce 200 is newer than the one at 0; on sdb the one at 100
    assert_eq!(round.tasks[0].plot(0).start_nonce(), 200);
    assert_eq!(round.tasks[0].plot(1).start_nonce(), 0);
    assert_eq!(round.tasks[1].plot(0).start_nonce(), 100);
    assert_eq!(round.tasks[1].plot(1).start_nonce(), 400);
    assert_eq!(round.tasks[0].due(), Action::Seek { plot: 0, seek_addr: 6400 });
    let again = miner.start_reading(2, &[3; 32]);
    assert_eq!(again.interrupts, 2);
    assert_eq!(miner.wakeup().len(), 2);
}

#[test]
fn a_round_begins_with_each_new_height() {
    let mut state = State::new();
    let mut starts = 0;
    let mut polls = Vec::new();
    for height in [100u64, 100, 101] {
        let poll = state.decide(height, 1000, 0, 240_000);
        if poll == Poll::NewRound {
            starts += 1;
        }
        polls.push(poll);
    }
    assert_eq!(starts, 2);
    assert_eq!(polls, vec![Poll::NewRound, Poll::Idle, Poll::NewRound]);
    assert_eq!(seen(&state), (101, UNBOUNDED, 1000, true, 0));
}

#[test]
fn between_two_rounds_only_a_wakeup_may_come() {
    let mut state = State::new();
    assert_eq!(state.decide(100, 1000, 0, 1000), Poll::NewRound);
    // the round is under way: no wakeup, however long ago it began
    assert_eq!(state.decide(100, 1000, 5000, 1000), Poll::Idle);
    state.on_nonce_data(&nonce(u64::MAX, true), 0, 1);
    assert!(!state.scanning());
    assert_eq!(state.decide(100, 1000, 999, 1000), Poll::Idle);
    assert_eq!(state.decide(100, 1000, 1000, 1000), Poll::Wakeup);
    assert_eq!(state.decide(100, 1000, 1001, 1000), Poll::Wakeup);
    assert_eq!(state.decide(99, 1000, 5000, 1000), Poll::Wakeup);
    assert_eq!(seen(&state), (100, UNBOUNDED, 1000, false, 1));
    assert_eq!(state.decide(101, 7, 5000, 1000), Poll::NewRound);
    assert_eq!(seen(&state), (101, UNBOUNDED, 7, true, 0));
}

#[test]
fn no_wakeup_where_it_is_switched_off() {
    let mut state = State::new();
    assert_eq!(state.decide(0, 1, i64::MAX, 0), Poll::Idle);
    assert_eq!(state.decide(0, 1, i64::MAX, -1), Poll::Idle);
    assert_eq!(state.decide(0, 1, i64::MAX, 1), Poll::Wakeup);
    assert_eq!(state.decide(0, 1, -5, 1), Poll::Idle);
    assert_eq!(seen(&state), (0, UNBOUNDED, 1, false, 0));
}

#[test]
fn a_base_target_of_zero_is_taken_over_and_divides_nothing() {
    let mut state = State::new();
    // the height alone begins a round
    assert_eq!(state.decide(100, 0, 0, 0), Poll::NewRound);
    assert_eq!(seen(&state), (100, UNBOUNDED, 0, true, 0));
    // no report is worth a submission, whatever its deadline and the target
    for deadline in [0, 1, 1_000_000, u64::MAX] {
        let intake = state.on_nonce_data(&nonce(deadline, false), u64::MAX, 2);
        assert_eq!(intake, Intake { submit: None, round_finished: false, round_time_ms: None });
    }
    assert_eq!(state.best_deadline(), UNBOUNDED);
    // the readers are counted as ever
    assert!(!state.on_nonce_data(&nonce(5, true), u64::MAX, 2).round_finished);
    let last = state.on_nonce_data(&nonce(5, true), u64::MAX, 2);
    assert!(last.round_finished);
    assert_eq!(last.submit, None);
    assert_eq!(seen(&state), (100, UNBOUNDED, 0, false, 2));
    // the wakeup does not look at the base target
    assert_eq!(state.decide(100, 0, 999, 1000), Poll::Idle);
    assert_eq!(state.decide(100, 0, 1000, 1000), Poll::Wakeup);
    assert_eq!(state.decide(99, 0, 5000, 1000), Poll::Wakeup);
    assert_eq!(seen(&state), (100, UNBOUNDED, 0, false, 2));
    // the next block brings a base target to divide by
    assert_eq!(state.on_mining_info(101, 1000, 0), Poll::NewRound);
    assert_eq!(state.on_nonce_data(&nonce(1_000_000, false), 2000, 2).submit, Some(1000));
    let mut miner = Miner::new(&cfg(), &files(), 0);
    assert_eq!(miner.on_mining_info(100, 0), Poll::NewRound);
    assert_eq!(seen(miner.state()), (100, UNBOUNDED, 0, true, 0));
    assert_eq!(miner.on_nonce_data(&nonce(5, false)).submit, None);
    assert_eq!(miner.start_reading(7, &[1; 32]).tasks.len(), 2);
}

#[test]
fn a_new_round_forgets_the_old_one() {
    let mut state = State::new();
    state.decide(100, 1000, 0, 0);
    state.on_nonce_data(&nonce(1_000_000, true), 2000, 3);
    assert_eq!(seen(&state), (100, 1000, 1000, true, 1));
    state.decide(101, 500, 0, 0);
    assert_eq!(seen(&state), (101, UNBOUNDED, 500, true, 0));
    // a lower or equal height changes nothing
    state.decide(100, 1, 0, 0);
    state.decide(101, 1, 0, 0);
    assert_eq!(seen(&state), (101, UNBOUNDED, 500, true, 0));
}

#[test]
fn the_stopwatch_decides_nothing_while_a_round_is_under_way() {
    let mut state = State::new();
    assert_eq!(state.on_mining_info(100, 1000, 1), Poll::NewRound);
    assert_eq!(state.on_mining_info(100, 1000, 1), Poll::Idle);
    assert_eq!(state.on_mining_info(100, 1000, 1), Poll::Idle);
    assert_eq!(state.on_mining_info(101, 1000, 1), Poll::NewRound);
    assert_eq!(seen(&state), (101, UNBOUNDED, 1000, true, 0));
    let mut off = State::new();
    assert_eq!(off.on_mining_info(0, 1, 0), Poll::Idle);
    assert_eq!(off.on_mining_info(5, 1, 0), Poll::NewRound);
}

#[test]
fn an_idle_miner_wakes_its_drives_after_a_while() {
    let mut state = State::new();
    state.on_mining_info(100, 1000, 20);
    let done = state.on_nonce_data(&nonce(u64::MAX, true), 0, 1);
    assert!(done.round_finished);
    // the stopwatch was set to zero when the round ended
    assert!(done.round_time_ms.unwrap() >= 0);
    assert_eq!(state.on_mining_info(100, 1000, 60_000), Poll::Idle);
    let begun = std::time::Instant::now();
    while begun.elapsed() < std::time::Duration::from_millis(40) {}
    assert_eq!(state.on_mining_info(100, 1000, 20), Poll::Wakeup);
    // the wakeup has set the stopwatch to zero again
    assert_eq!(state.on_mining_info(100, 1000, 60_000), Poll::Idle);
}

#[test]
fn deadlines_are_divided_by_the_base_target() {
    let mut state = State::new();
    state.decide(100, 1000, 0, 0);
    // under the best, but not under the target of 500
    let none = state.on_nonce_data(&nonce(1_000_000, false), 500, 3);
    assert_eq!(none, Intake { submit: None, round_finished: false, round_time_ms: None });
    assert_eq!(state.best_deadline(), UNBOUNDED);
    let first = state.on_nonce_data(&nonce(1_000_000, false), 2000, 3);
    assert_eq!(first.submit, Some(1000));
    assert_eq!(state.best_deadline(), 1000);
    let worse = state.on_nonce_data(&nonce(1_200_000, false), 2000, 3);
    assert_eq!(worse.submit, None);
    assert_eq!(state.best_deadline(), 1000);
    let equal = state.on_nonce_data(&nonce(1_000_999, false), 2000, 3);
    assert_eq!(equal.submit, None);
    let better = state.on_nonce_data(&nonce(999_999, false), 2000, 3);
    assert_eq!(better.submit, Some(999));
    assert_eq!(state.best_deadline(), 999);
    assert_eq!(seen(&state), (100, 999, 1000, true, 0));
}

#[test]
fn the_target_itself_is_not_good_enough() {
    let mut state = State::new();
    state.decide(1, 1, 0, 0);
    assert_eq!(state.on_nonce_data(&nonce(2000, false), 2000, 1).submit, None);
    assert_eq!(state.on_nonce_data(&nonce(1999, false), 2000, 1).submit, Some(1999));
    assert_eq!(state.on_nonce_data(&nonce(0, false), 0, 1).submit, None);
    assert_eq!(state.on_nonce_data(&nonce(0, false), 1, 1).submit, Some(0));
}

#[test]
fn the_best_deadline_never_gets_worse_within_a_round() {
    let mut state = State::new();
    state.decide(1, 3, 0, 0);
    let mut best = state.best_deadline();
    let mut x: u64 = 99;
    for _ in 0..2000 {
        x = x.wrapping_mul(6364136223846793005).wrapping_add(1442695040888963407);
        let intake = state.on_nonce_data(&nonce(x >> 40, false), 1 << 22, 4);
        match intake.submit {
            Some(d) => {
                assert!(d < best);
                assert!(d < 1 << 22);
                assert_eq!(d, (x >> 40) / 3);
                assert_eq!(state.best_deadline(), d);
            }
            None => assert_eq!(state.best_deadline(), best),
        }
        best = state.best_deadline();
        assert_eq!(state.height(), 1);
    }
}

#[test]
fn the_last_reader_ends_the_round_once() {
    let mut state = State::new();
    state.decide(100, 1, 0, 0);
    let mut ends = 0;
    let mut scanning = Vec::new();
    for _ in 0..3 {
        let intake = state.on_nonce_data(&nonce(u64::MAX, true), 0, 3);
        assert_eq!(intake.round_time_ms.is_some(), intake.round_finished);
        if intake.round_finished {
            ends += 1;
        }
        scanning.push(state.scanning());
    }
    assert_eq!(scanning, vec![true, true, false]);
    assert_eq!(ends, 1);
    let done = seen(&state);
    assert_eq!(done, (100, UNBOUNDED, 1, false, 3));
    // late reports change nothing
    for _ in 0..5 {
        let intake = state.on_nonce_data(&nonce(u64::MAX, true), 0, 3);
        assert_eq!(intake, Intake { submit: None, round_finished: false, round_time_ms: None });
        assert_eq!(seen(&state), done);
    }
}

#[test]
fn reports_that_are_not_the_last_of_a_reader_are_not_counted() {
    let mut state = State::new();
    state.decide(100, 1, 0, 0);
    for _ in 0..10 {
        assert!(!state.on_nonce_data(&nonce(5, false), 0, 1).round_finished);
    }
    assert_eq!(state.processed_reader_tasks(), 0);
    assert!(state.scanning());
    assert!(state.on_nonce_data(&nonce(5, true), 0, 1).round_finished);
    assert!(!state.scanning());
}

#[test]
fn a_miner_without_drives_never_ends_a_round() {
    let mut miner = Miner::new(&cfg(), &Vec::new(), 0);
    assert_eq!(miner.reader_task_count(), 0);
    assert_eq!(miner.reader_thread_count(), 0);
    miner.on_mining_info(1, 1);
    assert_eq!(miner.start_reading(0, &[0; 32]).tasks.len(), 0);
    assert!(!miner.on_nonce_data(&nonce(5, true)).round_finished);
    assert!(miner.state().scanning());
    assert_eq!(miner.state().processed_reader_tasks(), 0);
    assert_eq!(miner.wakeup(), Vec::<u64>::new());
}

#[test]
fn the_miner_submits_under_its_own_target() {
    let mut miner = Miner::new(&cfg(), &files(), 0);
    assert_eq!(miner.on_mining_info(100, 1000), Poll::NewRound);
    assert_eq!(miner.on_mining_info(100, 1000), Poll::Idle);
    assert_eq!(miner.on_nonce_data(&nonce(2_000_000, false)).submit, None);
    assert_eq!(miner.on_nonce_data(&nonce(1_999_999, false)).submit, Some(1999));
    assert!(!miner.on_nonce_data(&nonce(u64::MAX, true)).round_finished);
    assert!(miner.on_nonce_data(&nonce(u64::MAX, true)).round_finished);
    assert_eq!(seen(miner.state()), (100, 1999, 1000, false, 2));
}
