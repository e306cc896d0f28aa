use sysprog::bufio::{ReadBuffer, WriteBuffer, WriteStep, BUFFER_SIZE};
use sysprog::pool::{PoolState, WorkerStep};
use sysprog::shell::{action_for_words, next_shell_action, ShellAction};

#[test]
fn read_buffer_hands_out_a_block_in_order() {
    let mut r = ReadBuffer::new();
    assert!(r.is_exhausted());
    assert_eq!(r.take_byte(), None);
    refill_with(&mut r, &[7, 8, 9]);
    assert!(!r.is_exhausted());
    assert_eq!(r.take_byte(), Some(7));
    assert_eq!(r.take_byte(), Some(8));
    assert_eq!(r.take_byte(), Some(9));
    assert_eq!(r.take_byte(), None);
    refill_with(&mut r, &[]);
    assert_eq!(r.take_byte(), None);
    let block: Vec<u8> = (0..BUFFER_SIZE).map(|i| (i % 256) as u8).collect();
    refill_with(&mut r, &block);
    for i in 0..BUFFER_SIZE {
        assert_eq!(r.take_byte(), Some((i % 256) as u8));
    }
    assert!(r.is_exhausted());
}

fn refill_with(r: &mut ReadBuffer, bytes: &[u8]) {
    let mut block = vec![0u8; BUFFER_SIZE];
    block[..bytes.len()].copy_from_slice(bytes);
    block[bytes.len()..].fill(0xee);
    r.refill(&mut block, bytes.len());
    assert_eq!(block.len(), BUFFER_SIZE);
}

fn drive(w: &mut WriteBuffer, data: &[u8], out: &mut Vec<u8>) {
    let mut offset = 0;
    loop {
        match w.fill_step(data, offset) {
            WriteStep::Done => break,
            WriteStep::NeedFlush => {
                out.extend_from_slice(w.as_slice());
                w.clear();
            }
            WriteStep::Copied { next_offset, full } => {
                offset = next_offset;
                if full {
                    out.extend_from_slice(w.as_slice());
                    w.clear();
                }
            }
        }
    }
}

#[test]
fn write_buffer_steps() {
    let mut w = WriteBuffer::new();
    assert!(w.is_empty());
    assert_eq!(w.fill_step(&[1, 2, 3], 3), WriteStep::Done);
    assert_eq!(
        w.fill_step(&[1, 2, 3], 1),
        WriteStep::Copied { next_offset: 3, full: false }
    );
    assert_eq!(w.as_slice(), &[2, 3]);
    let big = vec![5u8; BUFFER_SIZE];
    assert_eq!(
        w.fill_step(&big, 0),
        WriteStep::Copied { next_offset: BUFFER_SIZE - 2, full: true }
    );
    assert_eq!(w.fill_step(&big, BUFFER_SIZE - 2), WriteStep::NeedFlush);
    w.clear();
    assert!(w.is_empty());
    assert_eq!(
        w.fill_step(&big, BUFFER_SIZE - 2),
        WriteStep::Copied { next_offset: BUFFER_SIZE, full: false }
    );
}

#[test]
fn buffered_writing_keeps_every_byte_in_order() {
    let mut w = WriteBuffer::new();
    let mut out = Vec::new();
    let mut expected = Vec::new();
    let sizes = [1usize, 10, BUFFER_SIZE - 11, 1, BUFFER_SIZE * 2 + 5, 0, 3];
    let mut n: u32 = 0;
    for size in sizes {
        let data: Vec<u8> = (0..size).map(|_| { n = n.wrapping_add(1); (n % 253) as u8 }).collect();
        expected.extend_from_slice(&data);
        drive(&mut w, &data, &mut out);
        assert!(w.as_slice().len() < BUFFER_SIZE);
        assert_eq!(out.len() % BUFFER_SIZE, 0);
    }
    out.extend_from_slice(w.as_slice());
    assert_eq!(out, expected);
}

#[test]
fn pool_runs_tasks_in_order_then_exits() {
    let mut s = PoolState::new();
    assert!(!s.is_shutting_down());
    assert_eq!(s.next_step(), WorkerStep::Wait);
    s.submit(1);
    s.submit(-2);
    assert_eq!(s.next_step(), WorkerStep::Run(1));
    s.submit(3);
    s.begin_shutdown();
    assert!(s.is_shutting_down());
    assert_eq!(s.next_step(), WorkerStep::Run(-2));
    assert_eq!(s.next_step(), WorkerStep::Run(3));
    assert_eq!(s.next_step(), WorkerStep::Exit);
    assert_eq!(s.next_step(), WorkerStep::Exit);
}

fn run_line(bytes_read: usize, line: &str) -> Option<(String, Vec<String>)> {
    match next_shell_action(bytes_read, line) {
        ShellAction::Run { program, args } => Some((program, args)),
        _ => None,
    }
}

#[test]
fn shell_decisions() {
    assert!(matches!(next_shell_action(0, ""), ShellAction::Quit));
    assert!(matches!(next_shell_action(0, "ls -l\n"), ShellAction::Quit));
    assert!(matches!(next_shell_action(1, "\n"), ShellAction::Skip));
    assert!(matches!(next_shell_action(5, "  \t \n"), ShellAction::Skip));
    assert!(matches!(next_shell_action(5, "exit\n"), ShellAction::Quit));
    assert!(matches!(next_shell_action(12, "  exit now\n"), ShellAction::Quit));
    assert_eq!(
        run_line(6, "exits\n"),
        Some(("exits".to_string(), vec![]))
    );
    assert_eq!(
        run_line(20, "  ls   -l\t/tmp \n"),
        Some(("ls".to_string(), vec!["-l".to_string(), "/tmp".to_string()]))
    );
    assert_eq!(
        run_line(10, "echo exit\n"),
        Some(("echo".to_string(), vec!["exit".to_string()]))
    );
}

#[test]
fn shell_splits_at_unicode_white_space() {
    assert_eq!(
        run_line(20, "a\u{a0}b\u{3000}c\u{2003}\u{85}d\x0be\n"),
        Some((
            "a".to_string(),
            vec!["b".to_string(), "c".to_string(), "d".to_string(), "e".to_string()]
        ))
    );
    // A zero-width space is not white space.
    assert_eq!(run_line(9, "a\u{200b}b\n"), Some(("a\u{200b}b".to_string(), vec![])));
    assert!(matches!(next_shell_action(7, "\u{2028}\u{2029}"), ShellAction::Skip));
}

#[test]
fn shell_action_for_words() {
    assert!(matches!(action_for_words(0, vec!["ls".to_string()]), ShellAction::Quit));
    assert!(matches!(action_for_words(3, vec![]), ShellAction::Skip));
    assert!(matches!(
        action_for_words(9, vec!["exit".to_string(), "1".to_string()]),
        ShellAction::Quit
    ));
    match action_for_words(9, vec!["cat".to_string(), "a".to_string(), "b".to_string()]) {
        ShellAction::Run { program, args } => {
            assert_eq!(program, "cat");
            assert_eq!(args, vec!["a".to_string(), "b".to_string()]);
        }
        _ => panic!("expected a command to run"),
    }
}

fn read_byte(r: &mut ReadBuffer, blocks: &mut Vec<Vec<u8>>) -> Option<u8> {
    if let Some(b) = r.take_byte() {
        return Some(b);
    }
    let block = if blocks.is_empty() { Vec::new() } else { blocks.remove(0) };
    refill_with(r, &block);
    r.take_byte()
}

#[test]
fn reads_hand_out_the_blocks_in_order() {
    let mut r = ReadBuffer::new();
    let mut blocks = vec![vec![1, 2, 3], vec![4], vec![5, 6]];
    let mut got = Vec::new();
    while let Some(b) = read_byte(&mut r, &mut blocks) {
        got.push(b);
    }
    assert_eq!(got, vec![1, 2, 3, 4, 5, 6]);
    assert_eq!(read_byte(&mut r, &mut blocks), None);
}

#[test]
fn several_writes_then_close_give_the_concatenation() {
    let mut w = WriteBuffer::new();
    let mut file = Vec::new();
    let datas: Vec<Vec<u8>> = vec![vec![1; 5], vec![2; BUFFER_SIZE], vec![], vec![3; 7]];
    for d in &datas {
        drive(&mut w, d, &mut file);
        assert_eq!(file.len() % BUFFER_SIZE, 0);
    }
    // Closing writes out what is pending.
    file.extend_from_slice(w.as_slice());
    w.clear();
    assert_eq!(file, datas.concat());
}

#[test]
fn pool_whole_run_runs_each_submission_once() {
    let mut s = PoolState::new();
    let mut ran = Vec::new();
    for x in [5i64, -1, 5, 9] {
        s.submit(x);
        if let WorkerStep::Run(n) = s.next_step() {
            ran.push(n);
        }
        s.submit(x * 10);
    }
    s.begin_shutdown();
    loop {
        match s.next_step() {
            WorkerStep::Run(n) => ran.push(n),
            WorkerStep::Exit => break,
            WorkerStep::Wait => panic!("a worker waited after shutdown"),
        }
    }
    assert_eq!(ran, vec![5, 50, -1, -10, 5, 50, 9, 90]);
}

#[test]
fn refill_swaps_storage_without_copying() {
    let mut r = ReadBuffer::new();
    let mut a = vec![1u8; BUFFER_SIZE];
    r.refill(&mut a, 2);
    assert_eq!(a, vec![0u8; BUFFER_SIZE]);
    assert_eq!(r.take_byte(), Some(1));
    let mut b = vec![2u8; BUFFER_SIZE];
    r.refill(&mut b, 1);
    assert_eq!(b, vec![1u8; BUFFER_SIZE]);
    assert_eq!(r.take_byte(), Some(2));
    assert_eq!(r.take_byte(), None);
}

#[test]
fn copying_byte_by_byte_reproduces_the_blocks() {
    let original: Vec<Vec<u8>> = vec![
        (0..BUFFER_SIZE).map(|i| (i % 241) as u8).collect(),
        vec![9, 8, 7],
        (0..BUFFER_SIZE + 3).map(|i| (i % 13) as u8).collect::<Vec<u8>>()[..BUFFER_SIZE].to_vec(),
    ];
    let mut blocks = original.clone();
    let mut r = ReadBuffer::new();
    let mut w = WriteBuffer::new();
    let mut file = Vec::new();
    while let Some(b) = read_byte(&mut r, &mut blocks) {
        drive(&mut w, &[b], &mut file);
    }
    file.extend_from_slice(w.as_slice());
    w.clear();
    assert_eq!(file, original.concat());
}
