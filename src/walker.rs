use crate::layout::{
    FieldEntry,
    FieldName,
    LayoutDescriptor,
    StructKind,
    address_spec,
    c_int_spec,
    lookup_spec,
    read_address,
    read_c_int,
};
use crate::memory::{ReadError, RemoteReader};
use crate::resolve::{location_spec, resolve_location};
use vstd::prelude::*;

verus! {

/// The most frames taken from one thread's chain.
pub const MAX_DEPTH: usize = 512;

/// The most thread states taken from one interpreter's list.
pub const MAX_THREADS: usize = 4096;

/// How a walk over a chain of remote structures ended.
#[derive(Clone, Copy, Debug, PartialEq, Eq, Structural)]
pub enum WalkStatus {
    /// The chain ended at a null pointer and every record was read.
    Complete,
    /// A read failed: records so far are kept, or one was replaced by a
    /// placeholder.
    Partial,
    /// An address came round a second time.
    CycleDetected,
    /// The bound on the number of records was reached.
    DepthExceeded,
}

/// Why a whole session fails: the layout does not fit the target.
#[derive(Clone, Copy, Debug, PartialEq, Eq, Structural)]
pub enum SessionError {
    UnsupportedVersion,
}

/// A thread state of the target.
#[derive(Clone, Copy, Debug, PartialEq, Eq, Structural)]
pub struct ThreadStateHandle {
    pub address: u64,
    /// The innermost frame, absent when the thread runs no interpreted code.
    pub frame: Option<u64>,
    pub thread_id: u64,
}

/// One frame of a call stack, with its source location, or a placeholder
/// where the location could not be read.
#[derive(Clone, Debug)]
pub struct ResolvedFrame {
    pub address: u64,
    pub depth: usize,
    pub resolved: bool,
    pub function: Vec<u32>,
    pub file: Vec<u32>,
    pub line: i64,
}

/// The value of a frame record.
pub struct FrameModel {
    pub address: u64,
    pub depth: nat,
    pub resolved: bool,
    pub function: Seq<u32>,
    pub file: Seq<u32>,
    pub line: int,
}

impl ResolvedFrame {
    pub open spec fn view(&self) -> FrameModel {
        FrameModel {
            address: self.address,
            depth: self.depth as nat,
            resolved: self.resolved,
            function: self.function@,
            file: self.file@,
            line: self.line as int,
        }
    }
}

/// The frames of one thread, innermost first.
#[derive(Clone, Debug)]
pub struct CallStack {
    pub thread_id: u64,
    pub frames: Vec<ResolvedFrame>,
    pub status: WalkStatus,
}

impl CallStack {
    pub open spec fn frames_view(&self) -> Seq<FrameModel> {
        self.frames@.map_values(|f: ResolvedFrame| f@)
    }
}

/// The threads of one interpreter, in the target's list order.
#[derive(Clone, Debug)]
pub struct ThreadList {
    pub threads: Vec<ThreadStateHandle>,
    pub status: WalkStatus,
}

/// The fields of a frame that the walk reads: code object, last instruction
/// and caller.
#[verifier::opaque]
pub open spec fn frame_reads_spec<R: RemoteReader>(r: &R, l: Seq<FieldEntry>, a: u64) -> Result<
    (u64, i32, u64),
    ReadError,
> {
    match address_spec(r, l, a, StructKind::Frame, FieldName::Code) {
        Err(x) => Err(x),
        Ok(code) => match c_int_spec(r, l, a, StructKind::Frame, FieldName::LastInstruction) {
            Err(x) => Err(x),
            Ok(lasti) => match address_spec(r, l, a, StructKind::Frame, FieldName::Back) {
                Err(x) => Err(x),
                Ok(back) => Ok((code, lasti, back)),
            },
        },
    }
}

/// The record of the frame at `a`, at depth `depth`.
pub open spec fn frame_model<R: RemoteReader>(
    r: &R,
    l: Seq<FieldEntry>,
    a: u64,
    code: u64,
    lasti: i32,
    depth: nat,
) -> FrameModel {
    match location_spec(r, l, code, lasti) {
        Ok((function, file, line)) => FrameModel {
            address: a,
            depth,
            resolved: true,
            function,
            file,
            line,
        },
        Err(_) => FrameModel {
            address: a,
            depth,
            resolved: false,
            function: Seq::empty(),
            file: Seq::empty(),
            line: 0,
        },
    }
}

/// Records `prefix` (of which some are placeholders when `unresolved`) put
/// before the rest of a walk.
pub open spec fn join(
    prefix: Seq<FrameModel>,
    unresolved: bool,
    rest: (Seq<FrameModel>, WalkStatus),
) -> (Seq<FrameModel>, WalkStatus) {
    (prefix + rest.0, if unresolved && rest.1 == WalkStatus::Complete {
        WalkStatus::Partial
    } else {
        rest.1
    })
}

/// The walk from the frame at `a`, with the frames in `visited` already
/// taken, innermost first.
pub open spec fn walk_spec<R: RemoteReader>(
    r: &R,
    l: Seq<FieldEntry>,
    a: u64,
    visited: Seq<u64>,
) -> (Seq<FrameModel>, WalkStatus)
    decreases MAX_DEPTH - visited.len(),
{
    if a == 0 {
        (Seq::empty(), WalkStatus::Complete)
    } else if visited.contains(a) {
        (Seq::empty(), WalkStatus::CycleDetected)
    } else if visited.len() >= MAX_DEPTH {
        (Seq::empty(), WalkStatus::DepthExceeded)
    } else {
        match frame_reads_spec(r, l, a) {
            Err(_) => (Seq::empty(), WalkStatus::Partial),
            Ok((code, lasti, back)) => {
                let f = frame_model(r, l, a, code, lasti, visited.len());
                join(seq![f], !f.resolved, walk_spec(r, l, back, visited.push(a)))
            },
        }
    }
}

/// The fields of a thread state that enumeration reads: innermost frame,
/// thread identifier and next thread state.
pub open spec fn thread_reads_spec<R: RemoteReader>(r: &R, l: Seq<FieldEntry>, a: u64) -> Result<
    (u64, u64, u64),
    ReadError,
> {
    match address_spec(r, l, a, StructKind::Thread, FieldName::CurrentFrame) {
        Err(x) => Err(x),
        Ok(frame) => match address_spec(r, l, a, StructKind::Thread, FieldName::ThreadId) {
            Err(x) => Err(x),
            Ok(tid) => match address_spec(r, l, a, StructKind::Thread, FieldName::Next) {
                Err(x) => Err(x),
                Ok(next) => Ok((frame, tid, next)),
            },
        },
    }
}

pub open spec fn handle_of(a: u64, frame: u64, tid: u64) -> ThreadStateHandle {
    ThreadStateHandle {
        address: a,
        frame: if frame == 0 {
            None
        } else {
            Some(frame)
        },
        thread_id: tid,
    }
}

/// The thread states from the one at `a`, with those in `visited` already
/// taken.
pub open spec fn threads_spec<R: RemoteReader>(
    r: &R,
    l: Seq<FieldEntry>,
    a: u64,
    visited: Seq<u64>,
) -> (Seq<ThreadStateHandle>, WalkStatus)
    decreases MAX_THREADS - visited.len(),
{
    if a == 0 {
        (Seq::empty(), WalkStatus::Complete)
    } else if visited.contains(a) {
        (Seq::empty(), WalkStatus::CycleDetected)
    } else if visited.len() >= MAX_THREADS {
        (Seq::empty(), WalkStatus::DepthExceeded)
    } else {
        match thread_reads_spec(r, l, a) {
            Err(_) => (Seq::empty(), WalkStatus::Partial),
            Ok((frame, tid, next)) => {
                let rest = threads_spec(r, l, next, visited.push(a));
                (seq![handle_of(a, frame, tid)] + rest.0, rest.1)
            },
        }
    }
}

/// The thread states of the interpreter at `interp`.
pub open spec fn enumerate_spec<R: RemoteReader>(r: &R, l: Seq<FieldEntry>, interp: u64) -> (Seq<
    ThreadStateHandle,
>, WalkStatus) {
    match address_spec(r, l, interp, StructKind::Interpreter, FieldName::ThreadHead) {
        Err(_) => (Seq::empty(), WalkStatus::Partial),
        Ok(head) => threads_spec(r, l, head, Seq::empty()),
    }
}

/// The fields that walking a stack reads.
pub open spec fn walk_fields() -> Seq<(StructKind, FieldName)> {
    seq![
        (StructKind::Frame, FieldName::Back),
        (StructKind::Frame, FieldName::Code),
        (StructKind::Frame, FieldName::LastInstruction),
        (StructKind::Code, FieldName::Name),
        (StructKind::Code, FieldName::FileName),
        (StructKind::Code, FieldName::FirstLine),
        (StructKind::Code, FieldName::LineTable),
        (StructKind::Str, FieldName::State),
        (StructKind::Str, FieldName::Length),
        (StructKind::Str, FieldName::WideData),
        (StructKind::Str, FieldName::InlineAscii),
        (StructKind::Str, FieldName::InlineCompact),
        (StructKind::Str, FieldName::DataPointer),
        (StructKind::Str, FieldName::Utf8Length),
        (StructKind::Str, FieldName::Utf8Data),
        (StructKind::Bytes, FieldName::Size),
        (StructKind::Bytes, FieldName::Data),
    ]
}

/// The fields that enumerating threads reads.
pub open spec fn thread_fields() -> Seq<(StructKind, FieldName)> {
    seq![
        (StructKind::Interpreter, FieldName::ThreadHead),
        (StructKind::Thread, FieldName::Next),
        (StructKind::Thread, FieldName::CurrentFrame),
        (StructKind::Thread, FieldName::ThreadId),
    ]
}

/// Whether the layout has an entry for each of `fields`.
pub open spec fn has_all(l: Seq<FieldEntry>, fields: Seq<(StructKind, FieldName)>) -> bool {
    forall|i: int| 0 <= i < fields.len() ==> (#[trigger] lookup_spec(l, fields[i].0, fields[i].1)) is Some
}

/// Whether the layout has an entry for each of `fields`.
pub fn supports(l: &LayoutDescriptor, fields: &Vec<(StructKind, FieldName)>) -> (r: bool)
    ensures
        r == has_all(l@, fields@),
{
    let mut i: usize = 0;
    while i < fields.len()
        invariant
            i <= fields@.len(),
            forall|j: int| 0 <= j < i ==> (#[trigger] lookup_spec(l@, fields@[j].0, fields@[j].1)) is Some,
        decreases fields@.len() - i,
    {
        let (k, n) = fields[i];
        if !l.has_field(k, n) {
            return false;
        }
        i = i + 1;
    }
    true
}

fn walk_field_list() -> (r: Vec<(StructKind, FieldName)>)
    ensures
        r@ == walk_fields(),
{
    let v = vec![
        (StructKind::Frame, FieldName::Back),
        (StructKind::Frame, FieldName::Code),
        (StructKind::Frame, FieldName::LastInstruction),
        (StructKind::Code, FieldName::Name),
        (StructKind::Code, FieldName::FileName),
        (StructKind::Code, FieldName::FirstLine),
        (StructKind::Code, FieldName::LineTable),
        (StructKind::Str, FieldName::State),
        (StructKind::Str, FieldName::Length),
        (StructKind::Str, FieldName::WideData),
        (StructKind::Str, FieldName::InlineAscii),
        (StructKind::Str, FieldName::InlineCompact),
        (StructKind::Str, FieldName::DataPointer),
        (StructKind::Str, FieldName::Utf8Length),
        (StructKind::Str, FieldName::Utf8Data),
        (StructKind::Bytes, FieldName::Size),
        (StructKind::Bytes, FieldName::Data),
    ];
    assert(v@ =~= walk_fields());
    v
}

fn thread_field_list() -> (r: Vec<(StructKind, FieldName)>)
    ensures
        r@ == thread_fields(),
{
    let v = vec![
        (StructKind::Interpreter, FieldName::ThreadHead),
        (StructKind::Thread, FieldName::Next),
        (StructKind::Thread, FieldName::CurrentFrame),
        (StructKind::Thread, FieldName::ThreadId),
    ];
    assert(v@ =~= thread_fields());
    v
}

/// Whether `a` is among `v`.
fn seen(v: &Vec<u64>, a: u64) -> (r: bool)
    ensures
        r == v@.contains(a),
{
    let mut i: usize = 0;
    while i < v.len()
        invariant
            i <= v@.len(),
            forall|j: int| 0 <= j < i ==> v@[j] != a,
        decreases v@.len() - i,
    {
        if v[i] == a {
            return true;
        }
        i = i + 1;
    }
    false
}

fn read_frame<R: RemoteReader>(r: &R, l: &LayoutDescriptor, a: u64) -> (res: Result<
    (u64, i32, u64),
    ReadError,
>)
    requires
        l.wf(),
    ensures
        res == frame_reads_spec(r, l@, a),
{
    proof {
        reveal(frame_reads_spec);
    }
    let code = read_address(r, l, a, StructKind::Frame, FieldName::Code)?;
    let lasti = read_c_int(r, l, a, StructKind::Frame, FieldName::LastInstruction)?;
    let back = read_address(r, l, a, StructKind::Frame, FieldName::Back)?;
    Ok((code, lasti, back))
}

/// The record of the frame at `a`: its location, or a placeholder where the
/// location cannot be read.
pub fn resolve_frame<R: RemoteReader>(
    r: &R,
    l: &LayoutDescriptor,
    a: u64,
    code: u64,
    lasti: i32,
    depth: usize,
) -> (f: ResolvedFrame)
    requires
        l.wf(),
    ensures
        f@ == frame_model(r, l@, a, code, lasti, depth as nat),
{
    match resolve_location(r, l, code, lasti) {
        Ok((function, file, line)) => ResolvedFrame {
            address: a,
            depth,
            resolved: true,
            function,
            file,
            line,
        },
        Err(_) => ResolvedFrame {
            address: a,
            depth,
            resolved: false,
            function: Vec::new(),
            file: Vec::new(),
            line: 0,
        },
    }
}

/// A flag that a session raises to stop a sample early; the walk checks it
/// between frames and between threads.
pub trait CancelFlag {
    fn is_cancelled(&self) -> bool;
}

/// A flag that is never raised.
pub struct NeverCancelled;

impl CancelFlag for NeverCancelled {
    fn is_cancelled(&self) -> bool {
        false
    }
}

/// The walk whose records and status are `v`, stopped early when the walk
/// in full is `full`: the same walk, or a prefix of its records marked
/// partial.
pub open spec fn walk_or_cut(v: (Seq<FrameModel>, WalkStatus), full: (Seq<FrameModel>, WalkStatus)) -> bool {
    v == full || (v.1 == WalkStatus::Partial && v.0.len() <= full.0.len() && v.0 == full.0.subrange(
        0,
        v.0.len() as int,
    ))
}

/// Where the walk of a thread starts: its innermost frame, or null.
pub open spec fn thread_start(t: ThreadStateHandle) -> u64 {
    match t.frame {
        Some(a) => a,
        None => 0,
    }
}

/// What one step of a walk decides at frame address `cur`: stop with a
/// status, or take a frame and go on to its caller.
#[derive(Clone, Debug)]
pub enum StepOutcome {
    Stop(WalkStatus),
    Frame(ResolvedFrame, u64),
}

/// Whether `s` is the first step of `walk_spec(r, l, cur, visited)`.
pub open spec fn step_matches<R: RemoteReader>(
    r: &R,
    l: Seq<FieldEntry>,
    cur: u64,
    visited: Seq<u64>,
    s: StepOutcome,
) -> bool {
    if cur == 0 {
        s == StepOutcome::Stop(WalkStatus::Complete)
    } else if visited.contains(cur) {
        s == StepOutcome::Stop(WalkStatus::CycleDetected)
    } else if visited.len() >= MAX_DEPTH {
        s == StepOutcome::Stop(WalkStatus::DepthExceeded)
    } else {
        match frame_reads_spec(r, l, cur) {
            Err(_) => s == StepOutcome::Stop(WalkStatus::Partial),
            Ok((code, lasti, back)) => match s {
                StepOutcome::Frame(f, b) => f@ == frame_model(r, l, cur, code, lasti, visited.len())
                    && b == back,
                StepOutcome::Stop(_) => false,
            },
        }
    }
}

/// One step of a walk at frame address `cur`, with the frames in `visited`
/// already taken. Where `cancelled` the walk stops, marked partial;
/// otherwise the step is the first step of the walk from `cur`.
pub fn walk_step<R: RemoteReader>(
    r: &R,
    l: &LayoutDescriptor,
    cur: u64,
    visited: &Vec<u64>,
    cancelled: bool,
) -> (res: StepOutcome)
    requires
        l.wf(),
    ensures
        cancelled ==> res == StepOutcome::Stop(WalkStatus::Partial),
        !cancelled ==> step_matches(r, l@, cur, visited@, res),
{
    if cancelled {
        return StepOutcome::Stop(WalkStatus::Partial);
    }
    if cur == 0 {
        return StepOutcome::Stop(WalkStatus::Complete);
    }
    if seen(visited, cur) {
        return StepOutcome::Stop(WalkStatus::CycleDetected);
    }
    if visited.len() >= MAX_DEPTH {
        return StepOutcome::Stop(WalkStatus::DepthExceeded);
    }
    match read_frame(r, l, cur) {
        Err(_) => StepOutcome::Stop(WalkStatus::Partial),
        Ok((code, lasti, back)) => StepOutcome::Frame(
            resolve_frame(r, l, cur, code, lasti, visited.len()),
            back,
        ),
    }
}

fn walk_loop<R: RemoteReader, C: CancelFlag>(
    r: &R,
    l: &LayoutDescriptor,
    start: u64,
    cancel: Option<&C>,
) -> (res: (Vec<ResolvedFrame>, WalkStatus))
    requires
        l.wf(),
    ensures
        cancel is None ==> (res.0@.map_values(|f: ResolvedFrame| f@), res.1) == walk_spec(
            r,
            l@,
            start,
            Seq::empty(),
        ),
        walk_or_cut(
            (res.0@.map_values(|f: ResolvedFrame| f@), res.1),
            walk_spec(r, l@, start, Seq::empty()),
        ),
{
    let mut frames: Vec<ResolvedFrame> = Vec::new();
    let mut visited: Vec<u64> = Vec::new();
    let mut unresolved = false;
    let mut cur = start;
    loop
        invariant
            l.wf(),
            visited@.len() == frames@.len() <= MAX_DEPTH,
            walk_spec(r, l@, start, Seq::empty()) == join(
                frames@.map_values(|f: ResolvedFrame| f@),
                unresolved,
                walk_spec(r, l@, cur, visited@),
            ),
        decreases MAX_DEPTH - visited@.len(),
    {
        let ghost fv = frames@.map_values(|f: ResolvedFrame| f@);
        let cancelled = match cancel {
            Some(c) => c.is_cancelled(),
            None => false,
        };
        match walk_step(r, l, cur, &visited, cancelled) {
            StepOutcome::Stop(st) => {
                proof {
                    assert(fv + Seq::<FrameModel>::empty() =~= fv);
                    let full = walk_spec(r, l@, start, Seq::empty());
                    assert(fv =~= full.0.subrange(0, fv.len() as int));
                }
                if cancelled {
                    return (frames, WalkStatus::Partial);
                }
                let status = if unresolved && st == WalkStatus::Complete {
                    WalkStatus::Partial
                } else {
                    st
                };
                return (frames, status);
            },
            StepOutcome::Frame(f, back) => {
                let ghost fm = f@;
                let ghost rest = walk_spec(r, l@, back, visited@.push(cur));
                if !f.resolved {
                    unresolved = true;
                }
                frames.push(f);
                visited.push(cur);
                cur = back;
                proof {
                    assert(frames@.map_values(|f: ResolvedFrame| f@) =~= fv.push(fm));
                    assert(fv + (seq![fm] + rest.0) =~= fv.push(fm) + rest.0);
                }
            },
        }
    }
}

/// The frames from the one at `start`, innermost first, with how the walk
/// ended.
pub fn walk_frames<R: RemoteReader>(r: &R, l: &LayoutDescriptor, start: u64) -> (res: (
    Vec<ResolvedFrame>,
    WalkStatus,
))
    requires
        l.wf(),
    ensures
        (res.0@.map_values(|f: ResolvedFrame| f@), res.1) == walk_spec(r, l@, start, Seq::empty()),
{
    walk_loop::<R, NeverCancelled>(r, l, start, None)
}

/// As `walk_frames`, but checks `cancel` before each frame and, once it is
/// raised, returns the frames taken so far, marked partial.
pub fn walk_frames_until<R: RemoteReader, C: CancelFlag>(
    r: &R,
    l: &LayoutDescriptor,
    start: u64,
    cancel: &C,
) -> (res: (Vec<ResolvedFrame>, WalkStatus))
    requires
        l.wf(),
    ensures
        walk_or_cut(
            (res.0@.map_values(|f: ResolvedFrame| f@), res.1),
            walk_spec(r, l@, start, Seq::empty()),
        ),
{
    walk_loop(r, l, start, Some(cancel))
}

/// The call stack of a thread, innermost frame first; empty for a thread
/// with no frame. Fails only where the layout lacks a field that walking
/// reads.
pub fn walk<R: RemoteReader>(r: &R, l: &LayoutDescriptor, thread: &ThreadStateHandle) -> (res:
    Result<CallStack, SessionError>)
    requires
        l.wf(),
    ensures
        res is Err <==> !has_all(l@, walk_fields()),
        res is Ok ==> {
            let s = res->Ok_0;
            &&& s.thread_id == thread.thread_id
            &&& (s.frames_view(), s.status) == walk_spec(
                r,
                l@,
                match thread.frame {
                    Some(a) => a,
                    None => 0,
                },
                Seq::empty(),
            )
        },
{
    let fields = walk_field_list();
    if !supports(l, &fields) {
        return Err(SessionError::UnsupportedVersion);
    }
    let start = match thread.frame {
        Some(a) => a,
        None => 0,
    };
    let (frames, status) = walk_frames(r, l, start);
    Ok(CallStack { thread_id: thread.thread_id, frames, status })
}

fn read_thread<R: RemoteReader>(r: &R, l: &LayoutDescriptor, a: u64) -> (res: Result<
    (u64, u64, u64),
    ReadError,
>)
    requires
        l.wf(),
    ensures
        res == thread_reads_spec(r, l@, a),
{
    let frame = read_address(r, l, a, StructKind::Thread, FieldName::CurrentFrame)?;
    let tid = read_address(r, l, a, StructKind::Thread, FieldName::ThreadId)?;
    let next = read_address(r, l, a, StructKind::Thread, FieldName::Next)?;
    Ok((frame, tid, next))
}

/// The thread states of the interpreter at `interp`, in the target's list
/// order, with how the enumeration ended. Fails only where the layout lacks
/// a field that enumeration reads.
pub fn enumerate_threads<R: RemoteReader>(r: &R, l: &LayoutDescriptor, interp: u64) -> (res:
    Result<ThreadList, SessionError>)
    requires
        l.wf(),
    ensures
        res is Err <==> !has_all(l@, thread_fields()),
        res is Ok ==> (res->Ok_0.threads@, res->Ok_0.status) == enumerate_spec(r, l@, interp),
{
    let fields = thread_field_list();
    if !supports(l, &fields) {
        return Err(SessionError::UnsupportedVersion);
    }
    let head = match read_address(r, l, interp, StructKind::Interpreter, FieldName::ThreadHead) {
        Err(_) => return Ok(ThreadList { threads: Vec::new(), status: WalkStatus::Partial }),
        Ok(h) => h,
    };
    let mut threads: Vec<ThreadStateHandle> = Vec::new();
    let mut visited: Vec<u64> = Vec::new();
    let mut cur = head;
    loop
        invariant
            l.wf(),
            visited@.len() == threads@.len() <= MAX_THREADS,
            has_all(l@, thread_fields()),
            enumerate_spec(r, l@, interp) == (
                threads@ + threads_spec(r, l@, cur, visited@).0,
                threads_spec(r, l@, cur, visited@).1,
            ),
        decreases MAX_THREADS - visited@.len(),
    {
        if cur == 0 || seen(&visited, cur) || visited.len() >= MAX_THREADS {
            proof {
                assert(threads@ + Seq::<ThreadStateHandle>::empty() =~= threads@);
            }
            let status = if cur == 0 {
                WalkStatus::Complete
            } else if seen(&visited, cur) {
                WalkStatus::CycleDetected
            } else {
                WalkStatus::DepthExceeded
            };
            return Ok(ThreadList { threads, status });
        }
        match read_thread(r, l, cur) {
            Err(_) => {
                proof {
                    assert(threads@ + Seq::<ThreadStateHandle>::empty() =~= threads@);
                }
                return Ok(ThreadList { threads, status: WalkStatus::Partial });
            },
            Ok((frame, tid, next)) => {
                let ghost old_threads = threads@;
                let ghost rest = threads_spec(r, l@, next, visited@.push(cur));
                let h = ThreadStateHandle {
                    address: cur,
                    frame: if frame == 0 {
                        None
                    } else {
                        Some(frame)
                    },
                    thread_id: tid,
                };
                threads.push(h);
                visited.push(cur);
                cur = next;
                proof {
                    assert(old_threads + (seq![h] + rest.0) =~= threads@ + rest.0);
                }
            },
        }
    }
}

/// Whether stack `s` is the walk of thread `t`, or, where `cut` allows, that
/// walk stopped early.
pub open spec fn stack_of<R: RemoteReader>(
    r: &R,
    l: Seq<FieldEntry>,
    s: CallStack,
    t: ThreadStateHandle,
    cut: bool,
) -> bool {
    &&& s.thread_id == t.thread_id
    &&& if cut {
        walk_or_cut((s.frames_view(), s.status), walk_spec(r, l, thread_start(t), Seq::empty()))
    } else {
        (s.frames_view(), s.status) == walk_spec(r, l, thread_start(t), Seq::empty())
    }
}

fn sample_loop<R: RemoteReader, C: CancelFlag>(
    r: &R,
    l: &LayoutDescriptor,
    interp: u64,
    cancel: Option<&C>,
) -> (res: Result<(Vec<CallStack>, WalkStatus), SessionError>)
    requires
        l.wf(),
    ensures
        res is Err <==> !has_all(l@, thread_fields()) || !has_all(l@, walk_fields()),
        res is Ok ==> {
            let (stacks, status) = res->Ok_0;
            let (threads, st) = enumerate_spec(r, l@, interp);
            &&& stacks@.len() <= threads.len()
            &&& forall|i: int|
                0 <= i < stacks@.len() ==> stack_of(
                    r,
                    l@,
                    #[trigger] stacks@[i],
                    threads[i],
                    cancel is Some,
                )
            &&& status == st || status == WalkStatus::Partial
            &&& stacks@.len() < threads.len() ==> status == WalkStatus::Partial
            &&& cancel is None ==> stacks@.len() == threads.len() && status == st
        },
{
    let list = enumerate_threads(r, l, interp)?;
    let fields = walk_field_list();
    if !supports(l, &fields) {
        return Err(SessionError::UnsupportedVersion);
    }
    let mut stacks: Vec<CallStack> = Vec::new();
    let mut i: usize = 0;
    while i < list.threads.len()
        invariant
            l.wf(),
            has_all(l@, walk_fields()),
            has_all(l@, thread_fields()),
            (list.threads@, list.status) == enumerate_spec(r, l@, interp),
            i <= list.threads@.len(),
            stacks@.len() == i,
            forall|j: int|
                0 <= j < i ==> stack_of(
                    r,
                    l@,
                    #[trigger] stacks@[j],
                    list.threads@[j],
                    cancel is Some,
                ),
        decreases list.threads@.len() - i,
    {
        let t = list.threads[i];
        let start = match t.frame {
            Some(a) => a,
            None => 0,
        };
        let (frames, status) = match cancel {
            Some(c) => {
                if c.is_cancelled() {
                    return Ok((stacks, WalkStatus::Partial));
                }
                walk_loop(r, l, start, Some(c))
            },
            None => walk_loop::<R, C>(r, l, start, None),
        };
        let s = CallStack { thread_id: t.thread_id, frames, status };
        proof {
            assert(s.frames_view() == frames@.map_values(|f: ResolvedFrame| f@));
        }
        stacks.push(s);
        i = i + 1;
    }
    Ok((stacks, list.status))
}

/// One sample: the call stack of every thread of the interpreter at
/// `interp`, in enumeration order, with how the enumeration ended.
pub fn sample<R: RemoteReader>(r: &R, l: &LayoutDescriptor, interp: u64) -> (res: Result<
    (Vec<CallStack>, WalkStatus),
    SessionError,
>)
    requires
        l.wf(),
    ensures
        res is Err <==> !has_all(l@, thread_fields()) || !has_all(l@, walk_fields()),
        res is Ok ==> {
            let (stacks, status) = res->Ok_0;
            let (threads, st) = enumerate_spec(r, l@, interp);
            &&& status == st
            &&& stacks@.len() == threads.len()
            &&& forall|i: int|
                0 <= i < threads.len() ==> stack_of(r, l@, #[trigger] stacks@[i], threads[i], false)
        },
{
    sample_loop::<R, NeverCancelled>(r, l, interp, None)
}

/// As `sample`, but checks `cancel` before each thread and each frame. Once
/// it is raised the sample ends with the stacks assembled so far: the stack
/// being walked keeps the frames taken so far, marked partial, the threads
/// not reached get no stack, and the sample is marked partial.
pub fn sample_until<R: RemoteReader, C: CancelFlag>(
    r: &R,
    l: &LayoutDescriptor,
    interp: u64,
    cancel: &C,
) -> (res: Result<(Vec<CallStack>, WalkStatus), SessionError>)
    requires
        l.wf(),
    ensures
        res is Err <==> !has_all(l@, thread_fields()) || !has_all(l@, walk_fields()),
        res is Ok ==> {
            let (stacks, status) = res->Ok_0;
            let (threads, st) = enumerate_spec(r, l@, interp);
            &&& stacks@.len() <= threads.len()
            &&& forall|i: int|
                0 <= i < stacks@.len() ==> stack_of(r, l@, #[trigger] stacks@[i], threads[i], true)
            &&& status == st || status == WalkStatus::Partial
            &&& stacks@.len() < threads.len() ==> status == WalkStatus::Partial
        },
{
    sample_loop(r, l, interp, Some(cancel))
}

} // verus!
