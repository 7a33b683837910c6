use py_spy::layout::{python_3_3_layout, DecodeRule, FieldEntry, FieldName, LayoutDescriptor, StructKind};
use py_spy::memory::MemoryImage;
use py_spy::walker::{
    enumerate_threads, sample, sample_until, walk, walk_frames, walk_frames_until, walk_step,
    CallStack, CancelFlag, StepOutcome, SessionError, ThreadStateHandle, WalkStatus, MAX_DEPTH,
};
use std::cell::Cell;

/// Raised from the check numbered `after` on.
struct CancelAfter {
    after: usize,
    checks: Cell<usize>,
}

impl CancelFlag for CancelAfter {
    fn is_cancelled(&self) -> bool {
        let n = self.checks.get();
        self.checks.set(n + 1);
        n >= self.after
    }
}

fn cancel_after(after: usize) -> CancelAfter {
    CancelAfter { after, checks: Cell::new(0) }
}

fn text(s: &str) -> Vec<u32> {
    s.chars().map(|c| c as u32).collect()
}

fn put(buf: &mut Vec<u8>, off: usize, v: u64, width: usize) {
    for k in 0..width {
        buf[off + k] = (v >> (8 * k)) as u8;
    }
}

fn add_string(m: &mut MemoryImage, addr: u64, s: &str) {
    let mut b = vec![0u8; 48];
    put(&mut b, 16, s.len() as u64, 8);
    b[32] = 0b1110_0100;
    b.extend_from_slice(s.as_bytes());
    m.map_region(addr, b);
}

/// A code object at `addr` with its name, file name and an empty line table,
/// all at fixed distances after it.
fn add_code(m: &mut MemoryImage, addr: u64, name: &str, first_line: u32) {
    let mut b = vec![0u8; 128];
    put(&mut b, 104, addr + 0x100, 8);
    put(&mut b, 96, addr + 0x200, 8);
    put(&mut b, 112, first_line as u64, 4);
    put(&mut b, 120, addr + 0x300, 8);
    m.map_region(addr, b);
    add_string(m, addr + 0x100, name);
    add_string(m, addr + 0x200, "app.py");
    let mut t = vec![0u8; 32];
    put(&mut t, 16, 2, 8);
    t.extend_from_slice(&[2, 1]);
    m.map_region(addr + 0x300, t);
}

fn add_frame(m: &mut MemoryImage, addr: u64, back: u64, code: u64, lasti: u32) {
    let mut b = vec![0u8; 128];
    put(&mut b, 24, back, 8);
    put(&mut b, 32, code, 8);
    put(&mut b, 120, lasti as u64, 4);
    m.map_region(addr, b);
}

fn add_thread(m: &mut MemoryImage, addr: u64, next: u64, frame: u64, tid: u64) {
    let mut b = vec![0u8; 152];
    put(&mut b, 0, next, 8);
    put(&mut b, 16, frame, 8);
    put(&mut b, 144, tid, 8);
    m.map_region(addr, b);
}

fn add_interp(m: &mut MemoryImage, addr: u64, head: u64) {
    let mut b = vec![0u8; 16];
    put(&mut b, 8, head, 8);
    m.map_region(addr, b);
}

fn names(s: &CallStack) -> Vec<Vec<u32>> {
    s.frames.iter().map(|f| f.function.clone()).collect()
}

fn thread_at(frame: u64) -> ThreadStateHandle {
    ThreadStateHandle { address: 0x50, frame: Some(frame), thread_id: 7 }
}

/// Frames at 0x1000, 0x2000, ... each calling from the next; the last has
/// caller `end`.
fn chain(m: &mut MemoryImage, n: u64, end: u64) {
    for i in 0..n {
        let addr = 0x1000 * (i + 1);
        let back = if i + 1 < n { 0x1000 * (i + 2) } else { end };
        add_frame(m, addr, back, 0x100000 + 0x1000 * i, 4);
        add_code(m, 0x100000 + 0x1000 * i, &format!("f{}", i), 10 * (i as u32 + 1));
    }
}

#[test]
fn acyclic_chain_walked_innermost_first() {
    let mut m = MemoryImage::new();
    chain(&mut m, 3, 0);
    let l = python_3_3_layout();
    let s = walk(&m, &l, &thread_at(0x1000)).unwrap();
    assert_eq!(s.status, WalkStatus::Complete);
    assert_eq!(s.thread_id, 7);
    assert_eq!(names(&s), vec![text("f0"), text("f1"), text("f2")]);
    let addrs: Vec<u64> = s.frames.iter().map(|f| f.address).collect();
    assert_eq!(addrs, vec![0x1000, 0x2000, 0x3000]);
    let depths: Vec<usize> = s.frames.iter().map(|f| f.depth).collect();
    assert_eq!(depths, vec![0, 1, 2]);
    assert_eq!(s.frames[1].file, text("app.py"));
    // lasti 4 passes the single pair (2, +1)
    assert_eq!(s.frames[1].line, 21);
    assert!(s.frames.iter().all(|f| f.resolved));
}

#[test]
fn cycle_detected_and_walk_stops() {
    let mut m = MemoryImage::new();
    chain(&mut m, 4, 0x2000);
    let l = python_3_3_layout();
    let s = walk(&m, &l, &thread_at(0x1000)).unwrap();
    assert_eq!(s.status, WalkStatus::CycleDetected);
    assert_eq!(s.frames.len(), 4);
    let mut self_loop = MemoryImage::new();
    chain(&mut self_loop, 1, 0x1000);
    let s = walk(&self_loop, &l, &thread_at(0x1000)).unwrap();
    assert_eq!(s.status, WalkStatus::CycleDetected);
    assert_eq!(s.frames.len(), 1);
}

#[test]
fn depth_bound_stops_runaway_chain() {
    let mut m = MemoryImage::new();
    let n = MAX_DEPTH as u64 + 3;
    for i in 0..n {
        add_frame(&mut m, 0x1000 * (i + 1), 0x1000 * (i + 2), 0x9000_0000, 0);
    }
    add_code(&mut m, 0x9000_0000, "deep", 1);
    let l = python_3_3_layout();
    let s = walk(&m, &l, &thread_at(0x1000)).unwrap();
    assert_eq!(s.status, WalkStatus::DepthExceeded);
    assert_eq!(s.frames.len(), MAX_DEPTH);
}

#[test]
fn chain_at_depth_bound_is_complete() {
    let mut m = MemoryImage::new();
    let n = MAX_DEPTH as u64;
    for i in 0..n {
        let back = if i + 1 < n { 0x1000 * (i + 2) } else { 0 };
        add_frame(&mut m, 0x1000 * (i + 1), back, 0x9000_0000, 0);
    }
    add_code(&mut m, 0x9000_0000, "deep", 1);
    let l = python_3_3_layout();
    let s = walk(&m, &l, &thread_at(0x1000)).unwrap();
    assert_eq!(s.status, WalkStatus::Complete);
    assert_eq!(s.frames.len(), MAX_DEPTH);
}

#[test]
fn unmapped_code_object_gives_placeholder() {
    let mut m = MemoryImage::new();
    add_frame(&mut m, 0x1000, 0x2000, 0x100000, 0);
    add_frame(&mut m, 0x2000, 0x3000, 0xdead0000, 0);
    add_frame(&mut m, 0x3000, 0, 0x102000, 0);
    add_code(&mut m, 0x100000, "inner", 1);
    add_code(&mut m, 0x102000, "outer", 1);
    let l = python_3_3_layout();
    let s = walk(&m, &l, &thread_at(0x1000)).unwrap();
    assert_eq!(s.status, WalkStatus::Partial);
    assert_eq!(s.frames.len(), 3);
    assert_eq!(s.frames[0].function, text("inner"));
    assert!(!s.frames[1].resolved);
    assert_eq!(s.frames[1].address, 0x2000);
    assert!(s.frames[1].function.is_empty());
    assert_eq!(s.frames[2].function, text("outer"));
    assert!(s.frames[0].resolved && s.frames[2].resolved);
}

#[test]
fn unreadable_frame_keeps_earlier_frames() {
    let mut m = MemoryImage::new();
    add_frame(&mut m, 0x1000, 0x7777_0000, 0x100000, 0);
    add_code(&mut m, 0x100000, "only", 1);
    let l = python_3_3_layout();
    let s = walk(&m, &l, &thread_at(0x1000)).unwrap();
    assert_eq!(s.status, WalkStatus::Partial);
    assert_eq!(names(&s), vec![text("only")]);
}

#[test]
fn missing_line_table_uses_first_line() {
    let mut m = MemoryImage::new();
    add_frame(&mut m, 0x1000, 0, 0x100000, 9);
    let mut b = vec![0u8; 128];
    put(&mut b, 104, 0x100100, 8);
    put(&mut b, 96, 0x100200, 8);
    put(&mut b, 112, 42, 4);
    put(&mut b, 120, 0x5555_0000, 8);
    m.map_region(0x100000, b);
    add_string(&mut m, 0x100100, "g");
    add_string(&mut m, 0x100200, "h.py");
    let l = python_3_3_layout();
    let s = walk(&m, &l, &thread_at(0x1000)).unwrap();
    assert_eq!(s.status, WalkStatus::Complete);
    assert_eq!(s.frames[0].line, 42);
}

#[test]
fn two_threads_one_idle() {
    let mut m = MemoryImage::new();
    // thread A: main -> foo -> bar, bar innermost
    add_frame(&mut m, 0x1000, 0x2000, 0x100000, 0);
    add_frame(&mut m, 0x2000, 0x3000, 0x101000, 0);
    add_frame(&mut m, 0x3000, 0, 0x102000, 0);
    add_code(&mut m, 0x100000, "bar", 30);
    add_code(&mut m, 0x101000, "foo", 20);
    add_code(&mut m, 0x102000, "main", 10);
    add_thread(&mut m, 0x500, 0x600, 0x1000, 11);
    add_thread(&mut m, 0x600, 0, 0, 22);
    add_interp(&mut m, 0x400, 0x500);
    let l = python_3_3_layout();
    let (stacks, status) = sample(&m, &l, 0x400).unwrap();
    assert_eq!(status, WalkStatus::Complete);
    assert_eq!(stacks.len(), 2);
    let a = stacks.iter().find(|s| s.thread_id == 11).unwrap();
    let b = stacks.iter().find(|s| s.thread_id == 22).unwrap();
    assert_eq!(names(a), vec![text("bar"), text("foo"), text("main")]);
    assert_eq!(a.status, WalkStatus::Complete);
    assert!(b.frames.is_empty());
    assert_eq!(b.status, WalkStatus::Complete);
}

#[test]
fn thread_list_cycle_and_partial() {
    let mut m = MemoryImage::new();
    add_thread(&mut m, 0x500, 0x600, 0, 1);
    add_thread(&mut m, 0x600, 0x500, 0, 2);
    add_interp(&mut m, 0x400, 0x500);
    add_interp(&mut m, 0x800, 0x900);
    let l = python_3_3_layout();
    let list = enumerate_threads(&m, &l, 0x400).unwrap();
    assert_eq!(list.status, WalkStatus::CycleDetected);
    assert_eq!(list.threads.len(), 2);
    assert_eq!(list.threads[1].frame, None);
    let list = enumerate_threads(&m, &l, 0x800).unwrap();
    assert_eq!(list.status, WalkStatus::Partial);
    assert!(list.threads.is_empty());
    let list = enumerate_threads(&m, &l, 0xabc).unwrap();
    assert_eq!(list.status, WalkStatus::Partial);
}

#[test]
fn layout_without_frame_fields_fails_session() {
    let l = LayoutDescriptor::from_entries(vec![FieldEntry {
        kind: StructKind::Frame,
        name: FieldName::Back,
        offset: 24,
        width: 8,
        rule: DecodeRule::Unsigned,
    }])
    .unwrap();
    let m = MemoryImage::new();
    assert!(matches!(walk(&m, &l, &thread_at(0x1000)), Err(SessionError::UnsupportedVersion)));
    assert!(matches!(enumerate_threads(&m, &l, 0x400), Err(SessionError::UnsupportedVersion)));
    assert!(matches!(sample(&m, &l, 0x400), Err(SessionError::UnsupportedVersion)));
}

#[test]
fn idle_thread_has_empty_stack() {
    let m = MemoryImage::new();
    let l = python_3_3_layout();
    let t = ThreadStateHandle { address: 0x50, frame: None, thread_id: 3 };
    let s = walk(&m, &l, &t).unwrap();
    assert!(s.frames.is_empty());
    assert_eq!(s.status, WalkStatus::Complete);
}

#[test]
fn short_line_table_read_keeps_pairs_read() {
    let mut m = MemoryImage::new();
    add_frame(&mut m, 0x1000, 0, 0x100000, 9);
    let mut b = vec![0u8; 128];
    put(&mut b, 104, 0x100100, 8);
    put(&mut b, 96, 0x100200, 8);
    put(&mut b, 112, 10, 4);
    put(&mut b, 120, 0x100300, 8);
    m.map_region(0x100000, b);
    add_string(&mut m, 0x100100, "g");
    add_string(&mut m, 0x100200, "h.py");
    // size field says six bytes, only three are mapped
    let mut t = vec![0u8; 32];
    put(&mut t, 16, 6, 8);
    t.extend_from_slice(&[4, 5, 4]);
    m.map_region(0x100300, t);
    let l = python_3_3_layout();
    let s = walk(&m, &l, &thread_at(0x1000)).unwrap();
    assert_eq!(s.status, WalkStatus::Complete);
    assert_eq!(s.frames[0].line, 15);
}

#[test]
fn cancelled_walk_keeps_frames_so_far() {
    let mut m = MemoryImage::new();
    chain(&mut m, 4, 0);
    let l = python_3_3_layout();
    let (frames, status) = walk_frames_until(&m, &l, 0x1000, &cancel_after(2));
    assert_eq!(status, WalkStatus::Partial);
    assert_eq!(frames.len(), 2);
    assert_eq!(frames[1].function, text("f1"));
    let (full, status) = walk_frames_until(&m, &l, 0x1000, &cancel_after(100));
    assert_eq!(status, WalkStatus::Complete);
    assert_eq!(full.len(), walk_frames(&m, &l, 0x1000).0.len());
}

#[test]
fn cancelled_sample_returns_stacks_so_far() {
    let mut m = MemoryImage::new();
    chain(&mut m, 2, 0);
    add_thread(&mut m, 0x500, 0x600, 0x1000, 11);
    add_thread(&mut m, 0x600, 0, 0x2000, 22);
    add_interp(&mut m, 0x400, 0x500);
    let l = python_3_3_layout();
    let (stacks, status) = sample_until(&m, &l, 0x400, &cancel_after(0)).unwrap();
    assert!(stacks.is_empty());
    assert_eq!(status, WalkStatus::Partial);
    // thread check, two frame checks and the null check pass; the second
    // thread's check stops the sample
    let (stacks, status) = sample_until(&m, &l, 0x400, &cancel_after(4)).unwrap();
    assert_eq!(status, WalkStatus::Partial);
    assert_eq!(stacks.len(), 1);
    assert_eq!(names(&stacks[0]), vec![text("f0"), text("f1")]);
    assert_eq!(stacks[0].status, WalkStatus::Complete);
    let (stacks, status) = sample_until(&m, &l, 0x400, &cancel_after(1000)).unwrap();
    assert_eq!(status, WalkStatus::Complete);
    assert_eq!(stacks.len(), 2);
}

#[test]
fn walk_step_decisions() {
    let mut m = MemoryImage::new();
    chain(&mut m, 2, 0);
    let l = python_3_3_layout();
    assert!(matches!(walk_step(&m, &l, 0x1000, &vec![], true), StepOutcome::Stop(WalkStatus::Partial)));
    assert!(matches!(walk_step(&m, &l, 0, &vec![], false), StepOutcome::Stop(WalkStatus::Complete)));
    assert!(matches!(
        walk_step(&m, &l, 0x1000, &vec![0x2000, 0x1000], false),
        StepOutcome::Stop(WalkStatus::CycleDetected)
    ));
    assert!(matches!(walk_step(&m, &l, 0x9999, &vec![], false), StepOutcome::Stop(WalkStatus::Partial)));
    match walk_step(&m, &l, 0x1000, &vec![0x5000], false) {
        StepOutcome::Frame(f, back) => {
            assert_eq!(back, 0x2000);
            assert_eq!(f.depth, 1);
            assert_eq!(f.function, text("f0"));
        }
        other => panic!("unexpected {:?}", other),
    }
    let full: Vec<u64> = (1..=MAX_DEPTH as u64).map(|i| i * 0x10 + 1).collect();
    assert!(matches!(
        walk_step(&m, &l, 0x1000, &full, false),
        StepOutcome::Stop(WalkStatus::DepthExceeded)
    ));
}
