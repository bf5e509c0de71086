use pipe_channel::pipe::{ChannelState, Pipe, PipeError, SeekPos, PIPE_BUF_SIZE};
use pipe_channel::ring::RingBuf;

fn make(capacity: usize) -> Pipe {
    Pipe::with_capacity(capacity).unwrap()
}

fn read_n(p: &mut Pipe, n: usize) -> Vec<u8> {
    let mut dst = vec![0u8; n];
    let got = p.read(&mut dst).unwrap();
    dst.truncate(got);
    dst
}

#[test]
fn default_capacity_is_two_mib() {
    let p = Pipe::new().unwrap();
    assert_eq!(p.capacity(), 2 * 1024 * 1024);
    assert_eq!(p.capacity(), PIPE_BUF_SIZE);
    assert_eq!(p.available(), 0);
    assert_eq!(p.state(), ChannelState::Open);
}

#[test]
fn fifo_order_across_writes() {
    let mut p = make(32);
    assert_eq!(p.write(&vec![1, 2, 3]).unwrap(), 3);
    assert_eq!(p.write(&vec![4, 5]).unwrap(), 2);
    assert_eq!(p.write(&vec![6]).unwrap(), 1);
    assert_eq!(read_n(&mut p, 6), vec![1, 2, 3, 4, 5, 6]);
    assert_eq!(p.available(), 0);
}

#[test]
fn round_trip_whole_buffer() {
    let mut p = make(16);
    let b: Vec<u8> = (0u8..16).collect();
    assert_eq!(p.write(&b).unwrap(), 16);
    assert_eq!(read_n(&mut p, 16), b);
    assert_eq!(p.available(), 0);
}

#[test]
fn capacity_accounting() {
    let mut p = make(10);
    assert_eq!(p.free_space(), 10);
    assert_eq!(p.write(&vec![7; 4]).unwrap(), 4);
    assert_eq!(p.available(), 4);
    assert_eq!(p.free_space(), 6);
    // A write larger than the free space is accepted only up to it.
    assert_eq!(p.write(&vec![8; 9]).unwrap(), 6);
    assert_eq!(p.available(), 10);
    assert_eq!(p.free_space(), 0);
    // A full pipe accepts nothing more.
    assert_eq!(p.write(&vec![9; 3]).unwrap(), 0);
    let _ = read_n(&mut p, 3);
    assert_eq!(p.available(), 7);
    assert_eq!(p.free_space(), 3);
}

#[test]
fn wraparound_hundred_cycles() {
    // Capacity 16, one hundred cycles of "write 10, read 10" with
    // monotonically tagged values: the cursors wrap many times and the byte
    // sequence must come out exact.
    let mut p = make(16);
    let mut tag: u64 = 0;
    for _cycle in 0..100 {
        let chunk: Vec<u8> = (0..10).map(|k| ((tag + k) % 256) as u8).collect();
        assert_eq!(p.write(&chunk).unwrap(), 10);
        let got = read_n(&mut p, 10);
        assert_eq!(got, chunk);
        tag += 10;
    }
    assert_eq!(p.available(), 0);
}

#[test]
fn read_fills_prefix_only() {
    let mut p = make(8);
    assert_eq!(p.write(&vec![1, 2]).unwrap(), 2);
    let mut dst = vec![9, 9, 9, 9];
    assert_eq!(p.read(&mut dst).unwrap(), 2);
    assert_eq!(dst, vec![1, 2, 9, 9]);
}

#[test]
fn zero_length_transfers() {
    let mut p = make(4);
    assert_eq!(p.write(&Vec::new()).unwrap(), 0);
    let mut empty: Vec<u8> = Vec::new();
    assert_eq!(p.read(&mut empty).unwrap(), 0);
    // Empty pipe, writer still open: a plain read transfers nothing.
    let mut dst = vec![0u8; 3];
    assert_eq!(p.read(&mut dst).unwrap(), 0);
    assert_eq!(dst, vec![0, 0, 0]);
}

#[test]
fn writev_partial_stops_at_first_short_buffer() {
    // 8 free bytes, writev of three 5-byte buffers: total 8, the first
    // buffer written whole, 3 bytes of the second, the third untouched.
    let mut p = make(8);
    let srcs = vec![vec![1; 5], vec![2; 5], vec![3; 5]];
    assert_eq!(p.writev(&srcs).unwrap(), 8);
    assert_eq!(p.available(), 8);
    let got = read_n(&mut p, 8);
    assert_eq!(got, vec![1, 1, 1, 1, 1, 2, 2, 2]);
}

#[test]
fn writev_skips_nothing_after_full_buffers() {
    let mut p = make(16);
    let srcs = vec![vec![1, 2], Vec::new(), vec![3]];
    assert_eq!(p.writev(&srcs).unwrap(), 3);
    assert_eq!(read_n(&mut p, 3), vec![1, 2, 3]);
}

#[test]
fn readv_partial_stops_at_first_short_buffer() {
    // 8 buffered bytes, readv into three 5-byte buffers: total 8, the first
    // filled whole, 3 bytes of the second, the third untouched.
    let mut p = make(16);
    assert_eq!(p.write(&vec![1, 2, 3, 4, 5, 6, 7, 8]).unwrap(), 8);
    let mut dsts = vec![vec![0; 5], vec![9; 5], vec![7; 5]];
    assert_eq!(p.readv(&mut dsts).unwrap(), 8);
    assert_eq!(dsts[0], vec![1, 2, 3, 4, 5]);
    assert_eq!(dsts[1], vec![6, 7, 8, 9, 9]);
    assert_eq!(dsts[2], vec![7; 5]);
    assert_eq!(p.available(), 0);
}

#[test]
fn readv_whole_request_served() {
    let mut p = make(16);
    assert_eq!(p.write(&vec![1, 2, 3, 4]).unwrap(), 4);
    let mut dsts = vec![vec![0; 2], vec![0; 2]];
    assert_eq!(p.readv(&mut dsts).unwrap(), 4);
    assert_eq!(dsts[0], vec![1, 2]);
    assert_eq!(dsts[1], vec![3, 4]);
}

#[test]
fn writev_error_with_zero_progress_propagates() {
    let mut p = make(8);
    p.drop_reader();
    assert_eq!(p.writev(&vec![vec![1, 2], vec![3]]), Err(PipeError::BrokenChannel));
    // With nothing to write there is no sub-call to fail.
    assert_eq!(p.writev(&Vec::new()).unwrap(), 0);
}

#[test]
fn write_after_read_close_is_broken_channel() {
    let mut p = make(8);
    assert_eq!(p.write(&vec![1]).unwrap(), 1);
    p.drop_reader();
    assert_eq!(p.state(), ChannelState::ReadClosed);
    assert_eq!(p.write(&vec![2]), Err(PipeError::BrokenChannel));
    assert_eq!(p.write(&Vec::new()), Err(PipeError::BrokenChannel));
}

#[test]
fn read_after_write_close_is_end_of_stream() {
    let mut p = make(8);
    assert_eq!(p.write(&vec![1, 2]).unwrap(), 2);
    p.drop_writer();
    assert_eq!(p.state(), ChannelState::WriteClosed);
    // The buffered bytes still drain...
    assert_eq!(read_n(&mut p, 2), vec![1, 2]);
    // ...and then reads return zero without waiting: end-of-stream.
    assert!(p.read_ready(5));
    let mut dst = vec![0u8; 5];
    assert_eq!(p.read(&mut dst).unwrap(), 0);
}

#[test]
fn handle_counting_drives_the_state() {
    let mut p = make(8);
    p.clone_writer();
    assert_eq!(p.writer_handles(), 2);
    p.drop_writer();
    assert_eq!(p.state(), ChannelState::Open);
    p.drop_writer();
    assert_eq!(p.state(), ChannelState::WriteClosed);
    p.clone_reader();
    p.drop_reader();
    p.drop_reader();
    assert_eq!(p.state(), ChannelState::Closed);
    assert_eq!(p.reader_handles(), 0);
    assert_eq!(p.writer_handles(), 0);
}

#[test]
fn ready_predicates_decide_blocking() {
    let mut p = make(2);
    // Empty and open: a reader that wants bytes must wait.
    assert!(!p.read_ready(1));
    assert!(p.read_ready(0));
    assert!(p.write_ready(1));
    assert_eq!(p.write(&vec![1, 2]).unwrap(), 2);
    // Full and open: a writer with bytes left must wait.
    assert!(!p.write_ready(1));
    assert!(p.read_ready(1));
    // A closed peer unblocks both sides.
    p.drop_reader();
    assert!(p.write_ready(1));
    let mut q = make(2);
    q.drop_writer();
    assert!(q.read_ready(1));
}

#[test]
fn seek_always_fails() {
    let p = make(8);
    assert_eq!(p.seek(SeekPos::Start(0)), Err(PipeError::NotSeekable));
    assert_eq!(p.seek(SeekPos::Start(17)), Err(PipeError::NotSeekable));
    assert_eq!(p.seek(SeekPos::End(-3)), Err(PipeError::NotSeekable));
    assert_eq!(p.seek(SeekPos::Current(5)), Err(PipeError::NotSeekable));
}

#[test]
fn ring_buffer_basics() {
    let mut rb = RingBuf::new(4);
    assert_eq!(rb.cap(), 4);
    assert_eq!(rb.try_write(&vec![1, 2, 3, 4, 5, 6]), 4);
    assert_eq!(rb.len(), 4);
    let mut dst = vec![0u8; 2];
    assert_eq!(rb.try_read(&mut dst), 2);
    assert_eq!(dst, vec![1, 2]);
    // The freed space is reused across the wrap point.
    assert_eq!(rb.try_write(&vec![7, 8]), 2);
    let mut rest = vec![0u8; 4];
    assert_eq!(rb.try_read(&mut rest), 4);
    assert_eq!(rest, vec![3, 4, 7, 8]);
    assert_eq!(rb.len(), 0);
}
