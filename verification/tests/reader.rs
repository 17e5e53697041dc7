use scavenger::buffer::{Buffer, BufferKind};
use scavenger::plot::{Chunk, FileMeta, Plot, NONCE_SIZE};
use scavenger::order::sort_newest_first;
use scavenger::reader::{Drive, ReadReply, Reader};
use scavenger::task::{Action, Event, ReadTask};

fn plot_at(name: &str, nonces: u64, modified: i64) -> Plot {
    Plot::new(
        name,
        FileMeta { fh: 0, size: nonces * NONCE_SIZE, sector_size: 0, modified },
        false,
        false,
    )
    .unwrap()
}

fn cpu(capacity: usize) -> Buffer {
    Buffer { kind: BufferKind::Cpu, capacity }
}

fn gpu(capacity: usize) -> Buffer {
    Buffer { kind: BufferKind::Gpu, capacity }
}

const GENSIG: [u8; 32] = [9; 32];

fn two_plots() -> Vec<Plot> {
    vec![plot_at("7_100_2", 2, 0), plot_at("7_200_1", 1, 0)]
}

fn reply(buffer: Buffer, len: usize, start_nonce: u64, finished: bool) -> ReadReply {
    ReadReply { buffer, len, height: 55, gensig: GENSIG, start_nonce, finished }
}

#[test]
fn plots_are_sorted_newest_first() {
    let plots = vec![
        plot_at("1_0_1", 1, 100),
        plot_at("1_1_1", 1, 300),
        plot_at("1_2_1", 1, -5),
        plot_at("1_3_1", 1, 200),
    ];
    let sorted = sort_newest_first(&plots);
    let times: Vec<i64> = sorted.iter().map(|p| p.modified()).collect();
    assert_eq!(times, vec![300, 200, 100, -5]);
    let starts: Vec<u64> = sorted.iter().map(|p| p.start_nonce()).collect();
    assert_eq!(starts, vec![1, 3, 0, 2]);
}

#[test]
fn plots_of_one_time_keep_their_order() {
    let plots = vec![
        plot_at("1_0_1", 1, 10),
        plot_at("1_1_1", 1, 20),
        plot_at("1_2_1", 1, 10),
        plot_at("1_3_1", 1, 20),
        plot_at("1_4_1", 1, 10),
        plot_at("1_5_1", 1, i64::MIN),
        plot_at("1_6_1", 1, i64::MAX),
    ];
    let sorted = sort_newest_first(&plots);
    let starts: Vec<u64> = sorted.iter().map(|p| p.start_nonce()).collect();
    assert_eq!(starts, vec![6, 1, 3, 0, 2, 4, 5]);
    let mut expected = plots.clone();
    expected.sort_by_key(|p| std::cmp::Reverse(p.modified()));
    assert_eq!(sorted, expected);
    assert_eq!(sort_newest_first(&Vec::new()), Vec::new());
}

#[test]
fn the_reader_sorts_each_drive() {
    let a = Drive::new(
        "sda".to_string(),
        vec![plot_at("1_0_1", 1, 1), plot_at("1_1_1", 1, 2)],
    );
    let b = Drive::new("sdb".to_string(), vec![plot_at("1_2_1", 1, 9)]);
    let reader = Reader::new(vec![a, b]);
    assert_eq!(reader.drive_count(), 2);
    assert_eq!(reader.drive(0).id(), "sda");
    assert_eq!(reader.drive(1).id(), "sdb");
    let starts: Vec<u64> = reader.drive(0).plots().iter().map(|p| p.start_nonce()).collect();
    assert_eq!(starts, vec![1, 0]);
    assert_eq!(reader.drive(1).plots().len(), 1);
}

#[test]
fn a_task_reads_its_plots_chunk_by_chunk() {
    let mut task = ReadTask::new(two_plots(), 55, 3, GENSIG);
    assert_eq!(task.plot_count(), 2);
    // plot 0 has 2 nonces: scoop 3 begins at 3 * 2 * 64
    assert_eq!(task.due(), Action::Seek { plot: 0, seek_addr: 384 });
    assert_eq!(task.step(Event::Seeked { ok: true }), Action::TakeBuffer);
    let first = Chunk { seek_addr: 384, len: 64, start_nonce: 100, finished: false };
    assert_eq!(
        task.step(Event::Buffer { buffer: cpu(64) }),
        Action::Fill { plot: 0, chunk: first, buffer: cpu(64) }
    );
    assert_eq!(
        task.step(Event::Filled { ok: true }),
        Action::Send { reply: reply(cpu(64), 64, 100, false) }
    );
    assert_eq!(task.step(Event::Sent), Action::Poll);
    assert_eq!(task.step(Event::Polled { interrupted: false }), Action::TakeBuffer);
    let second = Chunk { seek_addr: 448, len: 64, start_nonce: 101, finished: true };
    assert_eq!(
        task.step(Event::Buffer { buffer: gpu(100) }),
        Action::Fill { plot: 0, chunk: second, buffer: gpu(100) }
    );
    // the last chunk of a plot that is not the last plot does not finish the task
    assert_eq!(
        task.step(Event::Filled { ok: true }),
        Action::Send { reply: reply(gpu(100), 64, 101, false) }
    );
    assert_eq!(task.cursor(), 0);
    assert_eq!(task.step(Event::Sent), Action::Poll);
    // plot 1 has 1 nonce: scoop 3 begins at 3 * 1 * 64
    assert_eq!(
        task.step(Event::Polled { interrupted: false }),
        Action::Seek { plot: 1, seek_addr: 192 }
    );
    assert_eq!(task.cursor(), 1);
    assert_eq!(task.step(Event::Seeked { ok: true }), Action::TakeBuffer);
    let third = Chunk { seek_addr: 192, len: 64, start_nonce: 200, finished: true };
    assert_eq!(
        task.step(Event::Buffer { buffer: cpu(64) }),
        Action::Fill { plot: 1, chunk: third, buffer: cpu(64) }
    );
    assert_eq!(
        task.step(Event::Filled { ok: true }),
        Action::Send { reply: reply(cpu(64), 64, 200, true) }
    );
    assert_eq!(task.step(Event::Sent), Action::Stop);
    assert_eq!(task.cursor(), 2);
    assert_eq!(task.plot(0).read_offset(), 128);
    assert_eq!(task.plot(1).read_offset(), 64);
}

#[test]
fn a_task_without_plots_stops_at_once() {
    let mut task = ReadTask::new(Vec::new(), 1, 0, GENSIG);
    assert_eq!(task.due(), Action::Stop);
    assert_eq!(task.step(Event::Sent), Action::Stop);
    assert_eq!(task.cursor(), 0);
}

#[test]
fn a_failed_seek_skips_the_plot() {
    let mut task = ReadTask::new(two_plots(), 55, 3, GENSIG);
    assert_eq!(task.step(Event::Seeked { ok: false }), Action::Seek { plot: 1, seek_addr: 192 });
    // a failed seek on the last plot ends the task without a reply
    assert_eq!(task.step(Event::Seeked { ok: false }), Action::Stop);
    assert_eq!(task.cursor(), 2);
}

#[test]
fn a_failed_read_sends_an_empty_reply_and_leaves_the_plot() {
    let mut task = ReadTask::new(two_plots(), 55, 3, GENSIG);
    task.step(Event::Seeked { ok: true });
    task.step(Event::Buffer { buffer: cpu(64) });
    assert_eq!(
        task.step(Event::Filled { ok: false }),
        Action::Send { reply: reply(cpu(64), 0, 0, false) }
    );
    // the read failed: the cursor has not moved
    assert_eq!(task.plot(0).read_offset(), 0);
    assert_eq!(task.step(Event::Sent), Action::Poll);
    assert_eq!(
        task.step(Event::Polled { interrupted: false }),
        Action::Seek { plot: 1, seek_addr: 192 }
    );
    task.step(Event::Seeked { ok: true });
    task.step(Event::Buffer { buffer: gpu(64) });
    // on the last plot the empty reply is the task's last
    assert_eq!(
        task.step(Event::Filled { ok: false }),
        Action::Send { reply: reply(gpu(64), 0, 0, true) }
    );
    assert_eq!(task.step(Event::Sent), Action::Stop);
}

#[test]
fn the_cursor_moves_when_the_read_has_succeeded() {
    let mut task = ReadTask::new(two_plots(), 55, 3, GENSIG);
    task.step(Event::Seeked { ok: true });
    task.step(Event::Buffer { buffer: cpu(64) });
    // planned, not yet read
    assert_eq!(task.plot(0).read_offset(), 0);
    task.step(Event::Filled { ok: true });
    assert_eq!(task.plot(0).read_offset(), 64);
    task.step(Event::Sent);
    task.step(Event::Polled { interrupted: false });
    task.step(Event::Buffer { buffer: cpu(64) });
    assert_eq!(task.plot(0).read_offset(), 64);
    // the second read fails: the cursor stays behind the first
    task.step(Event::Filled { ok: false });
    assert_eq!(task.plot(0).read_offset(), 64);
    assert_eq!(task.plot(0).start_nonce(), 100);
    assert_eq!(task.plot(0).nonces(), 2);
}

#[test]
fn an_interrupt_stops_the_task_for_good() {
    let mut task = ReadTask::new(two_plots(), 55, 3, GENSIG);
    task.step(Event::Seeked { ok: true });
    task.step(Event::Buffer { buffer: cpu(64) });
    task.step(Event::Filled { ok: true });
    assert_eq!(task.step(Event::Sent), Action::Poll);
    assert_eq!(task.step(Event::Polled { interrupted: true }), Action::Stop);
    for event in [
        Event::Seeked { ok: true },
        Event::Buffer { buffer: cpu(64) },
        Event::Filled { ok: true },
        Event::Sent,
        Event::Polled { interrupted: false },
    ] {
        assert_eq!(task.step(event), Action::Stop);
    }
    assert_eq!(task.cursor(), 0);
    assert_eq!(task.plot(0).read_offset(), 64);
}

#[test]
fn an_interrupt_between_two_plots_stops_the_task() {
    let mut task = ReadTask::new(two_plots(), 55, 3, GENSIG);
    task.step(Event::Seeked { ok: true });
    task.step(Event::Buffer { buffer: cpu(128) });
    // the one chunk of plot 0: the plot is done with, the task is not
    assert_eq!(
        task.step(Event::Filled { ok: true }),
        Action::Send { reply: reply(cpu(128), 128, 100, false) }
    );
    assert_eq!(task.step(Event::Sent), Action::Poll);
    assert_eq!(task.step(Event::Polled { interrupted: true }), Action::Stop);
    assert_eq!(task.step(Event::Polled { interrupted: false }), Action::Stop);
    assert_eq!(task.cursor(), 0);
    assert_eq!(task.plot(1).read_offset(), 0);
}

#[test]
fn every_reply_but_the_last_is_followed_by_a_look_for_the_interrupt() {
    let plots = vec![
        plot_at("1_0_3", 3, 0),
        plot_at("1_3_1", 1, 0),
        plot_at("1_4_0", 0, 0),
        plot_at("1_4_2", 2, 0),
    ];
    let mut task = ReadTask::new(plots, 1, 9, GENSIG);
    let mut log = String::new();
    let mut action = task.due();
    loop {
        action = match action {
            Action::Seek { .. } => task.step(Event::Seeked { ok: true }),
            Action::TakeBuffer => task.step(Event::Buffer { buffer: cpu(128) }),
            Action::Fill { .. } => task.step(Event::Filled { ok: true }),
            Action::Send { reply } => {
                log.push(if reply.finished { 'F' } else { 'r' });
                task.step(Event::Sent)
            }
            Action::Poll => {
                log.push('p');
                task.step(Event::Polled { interrupted: false })
            }
            Action::Stop => break,
        };
    }
    // two chunks, one chunk, an empty chunk, one chunk that is the last of all
    assert_eq!(log, "rprprprpF");
}

#[test]
fn the_interrupt_is_looked_for_after_each_reply_within_a_plot() {
    let big = vec![plot_at("1_0_10", 10, 0)];
    let mut task = ReadTask::new(big, 1, 0, GENSIG);
    task.step(Event::Seeked { ok: true });
    let mut replies = 0;
    let mut polls = 0;
    let mut action = task.due();
    for _ in 0..100 {
        action = match action {
            Action::TakeBuffer => task.step(Event::Buffer { buffer: cpu(64) }),
            Action::Fill { .. } => task.step(Event::Filled { ok: true }),
            Action::Send { .. } => {
                replies += 1;
                let next = task.step(Event::Sent);
                if replies < 10 {
                    assert_eq!(next, Action::Poll);
                }
                next
            }
            Action::Poll => {
                polls += 1;
                assert_eq!(polls, replies);
                task.step(Event::Polled { interrupted: false })
            }
            Action::Seek { .. } => unreachable!(),
            Action::Stop => break,
        };
    }
    assert_eq!(action, Action::Stop);
    assert_eq!(replies, 10);
    assert_eq!(polls, 9);
}

#[test]
fn an_event_out_of_turn_changes_nothing() {
    let mut task = ReadTask::new(two_plots(), 55, 3, GENSIG);
    let due = task.due();
    for event in [
        Event::Buffer { buffer: cpu(64) },
        Event::Filled { ok: true },
        Event::Filled { ok: false },
        Event::Sent,
        Event::Polled { interrupted: true },
        Event::Polled { interrupted: false },
    ] {
        assert_eq!(task.step(event), due);
    }
    assert_eq!(task.step(Event::Seeked { ok: true }), Action::TakeBuffer);
    for event in [
        Event::Seeked { ok: false },
        Event::Seeked { ok: true },
        Event::Sent,
        Event::Polled { interrupted: true },
    ] {
        assert_eq!(task.step(event), Action::TakeBuffer);
    }
    assert_eq!(task.cursor(), 0);
    assert_eq!(task.plot(0).read_offset(), 0);
}

#[test]
fn an_undisturbed_task_delivers_every_byte_once() {
    let plots = vec![plot_at("1_0_1000", 1000, 3), plot_at("1_5000_37", 37, 2), plot_at("1_9000_0", 0, 1)];
    let regions: Vec<u64> = plots.iter().map(|p| p.nonces() * 64).collect();
    let mut task = ReadTask::new(plots.clone(), 77, 4095, GENSIG);
    let mut delivered = vec![0u64; 3];
    let mut finished_replies = 0;
    let mut action = task.due();
    let mut caps = [4096usize, 64, 10_000, 1, 8192].iter().cycle();
    loop {
        action = match action {
            Action::Seek { plot, seek_addr } => {
                assert_eq!(seek_addr, plots[plot].region_start(4095));
                task.step(Event::Seeked { ok: true })
            }
            Action::TakeBuffer => task.step(Event::Buffer { buffer: cpu(*caps.next().unwrap()) }),
            Action::Fill { plot, chunk, buffer } => {
                assert!(chunk.len <= buffer.capacity);
                assert_eq!(chunk.seek_addr, plots[plot].region_start(4095) + delivered[plot]);
                assert_eq!(chunk.start_nonce, plots[plot].start_nonce() + delivered[plot] / 64);
                delivered[plot] += chunk.len as u64;
                task.step(Event::Filled { ok: true })
            }
            Action::Send { reply } => {
                assert_eq!(reply.height, 77);
                assert_eq!(reply.gensig, GENSIG);
                if reply.finished {
                    finished_replies += 1;
                }
                task.step(Event::Sent)
            }
            Action::Poll => task.step(Event::Polled { interrupted: false }),
            Action::Stop => break,
        };
    }
    assert_eq!(delivered, regions);
    assert_eq!(finished_replies, 1);
    assert_eq!(task.cursor(), 3);
}

#[test]
fn start_reading_interrupts_the_round_before() {
    let drives = vec![
        Drive::new("a".to_string(), vec![plot_at("1_0_2", 2, 1), plot_at("1_2_2", 2, 5)]),
        Drive::new("b".to_string(), vec![plot_at("1_4_1", 1, 0)]),
        Drive::new("c".to_string(), vec![plot_at("1_5_3", 3, 0)]),
    ];
    let mut reader = Reader::new(drives);
    let first = reader.start_reading(100, 1, &GENSIG);
    assert_eq!(first.interrupts, 0);
    assert_eq!(first.tasks.len(), 3);
    let second = reader.start_reading(101, 2, &GENSIG);
    assert_eq!(second.interrupts, 3);
    assert_eq!(second.tasks.len(), 3);
    // each task begins with the newest plot of its drive, at the scoop of its round
    assert_eq!(first.tasks[0].due(), Action::Seek { plot: 0, seek_addr: 128 });
    assert_eq!(first.tasks[0].plot(0).start_nonce(), 2);
    assert_eq!(first.tasks[1].due(), Action::Seek { plot: 0, seek_addr: 64 });
    assert_eq!(first.tasks[2].due(), Action::Seek { plot: 0, seek_addr: 192 });
    assert_eq!(second.tasks[0].due(), Action::Seek { plot: 0, seek_addr: 256 });
    assert_eq!(second.tasks[2].due(), Action::Seek { plot: 0, seek_addr: 384 });
}

#[test]
fn a_new_round_reads_from_the_start_whatever_the_old_one_did() {
    let mut reader = Reader::new(vec![Drive::new("a".to_string(), vec![plot_at("1_0_4", 4, 0)])]);
    let mut old = reader.start_reading(1, 0, &GENSIG).tasks.remove(0);
    old.step(Event::Seeked { ok: true });
    old.step(Event::Buffer { buffer: cpu(64) });
    old.step(Event::Filled { ok: true });
    assert_eq!(old.plot(0).read_offset(), 64);
    let mut new = reader.start_reading(2, 0, &GENSIG).tasks.remove(0);
    assert_eq!(new.plot(0).read_offset(), 0);
    new.step(Event::Seeked { ok: true });
    assert_eq!(
        new.step(Event::Buffer { buffer: cpu(64) }),
        Action::Fill {
            plot: 0,
            chunk: Chunk { seek_addr: 0, len: 64, start_nonce: 0, finished: false },
            buffer: cpu(64)
        }
    );
}

#[test]
fn wakeup_seeks_in_the_first_plot_of_each_drive() {
    let drives = vec![
        Drive::new("a".to_string(), vec![plot_at("1_0_1000", 1000, 1), plot_at("1_2_7", 7, 0)]),
        Drive::new("b".to_string(), vec![plot_at("1_4_3", 3, 0)]),
    ];
    let reader = Reader::new(drives);
    for _ in 0..50 {
        let seeks = reader.wakeup();
        assert_eq!(seeks.len(), 2);
        assert_eq!(seeks[0] % 64_000, 0);
        assert!(seeks[0] / 64_000 < 4096);
        assert_eq!(seeks[1] % 192, 0);
        assert!(seeks[1] / 192 < 4096);
    }
}

#[test]
fn a_drive_takes_more_plots() {
    let mut drive = Drive::new("x".to_string(), Vec::new());
    drive.push(plot_at("1_0_1", 1, 0));
    drive.push(plot_at("1_1_1", 1, 0));
    assert_eq!(drive.id(), "x");
    assert_eq!(drive.plots().len(), 2);
    assert_eq!(drive.plots()[1].start_nonce(), 1);
    let copy = drive.clone_drive();
    assert_eq!(copy.id(), "x");
    assert_eq!(copy.plots(), drive.plots());
}
