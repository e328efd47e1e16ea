//! Stack frames and stack traces as handed over by a sampler.
use vstd::prelude::*;

use crate::sampler::FrameParts;

verus! {

/// One stack location. Each field may be absent: samplers supply different
/// subsets, and an absent field is not an empty one.
#[derive(Debug)]
pub struct Frame {
    pub module: Option<String>,
    pub name: Option<String>,
    pub filename: Option<String>,
    pub relative_path: Option<String>,
    pub absolute_path: Option<String>,
    pub line: Option<u64>,
}

/// The characters of an optional string.
pub open spec fn opt_text(o: Option<String>) -> Option<Seq<char>> {
    match o {
        Some(s) => Some(s@),
        None => None,
    }
}

/// A stack frame as mathematical values.
pub ghost struct FrameView {
    pub module: Option<Seq<char>>,
    pub name: Option<Seq<char>>,
    pub filename: Option<Seq<char>>,
    pub relative_path: Option<Seq<char>>,
    pub absolute_path: Option<Seq<char>>,
    pub line: Option<u64>,
}

impl View for Frame {
    type V = FrameView;

    open spec fn view(&self) -> FrameView {
        FrameView {
            module: opt_text(self.module),
            name: opt_text(self.name),
            filename: opt_text(self.filename),
            relative_path: opt_text(self.relative_path),
            absolute_path: opt_text(self.absolute_path),
            line: self.line,
        }
    }
}

/// The views of a sequence of frames.
pub open spec fn frames_view(v: Seq<Frame>) -> Seq<FrameView> {
    v.map_values(|f: Frame| f@)
}

/// A captured stack, innermost frame first, with the identity of the process
/// and thread it was taken from where the sampler knows them.
#[derive(Debug)]
pub struct Trace {
    pub pid: Option<u32>,
    pub thread_id: Option<u64>,
    pub thread_name: Option<String>,
    pub frames: Vec<Frame>,
}

/// The frame of a Ruby sampler: a method name, a path relative to the
/// project, possibly an absolute path, and a line number.
pub fn frame_from_sampler(name: String, relative_path: String, absolute_path: Option<String>, lineno: Option<usize>) -> (r: Frame)
    ensures
        r@ == (FrameView {
            module: None,
            name: Some(name@),
            filename: Some(relative_path@),
            relative_path: Some(relative_path@),
            absolute_path: opt_text(absolute_path),
            line: line_of(lineno),
        }),
{
    Frame {
        module: None,
        name: Some(name),
        filename: Some(relative_path.clone()),
        relative_path: Some(relative_path),
        absolute_path,
        line: match lineno {
            Some(l) => Some(l as u64),
            None => None,
        },
    }
}

/// The trace of a Ruby sampler, which names no thread.
pub fn trace_from_sampler(pid: Option<u32>, thread_id: Option<u64>, frames: Vec<Frame>) -> (r: Trace)
    ensures
        r.pid == pid,
        r.thread_id == thread_id,
        r.thread_name is None,
        frames_view(r.frames@) == frames_view(frames@),
{
    Trace { pid, thread_id, thread_name: None, frames }
}

/// Whether two optional strings are equal.
pub fn opt_text_eq(a: &Option<String>, b: &Option<String>) -> (r: bool)
    ensures
        r == (opt_text(*a) == opt_text(*b)),
{
    match (a, b) {
        (Some(x), Some(y)) => *x == *y,
        (None, None) => true,
        _ => false,
    }
}

/// Whether two frames are equal in every field.
pub fn frame_eq(a: &Frame, b: &Frame) -> (r: bool)
    ensures
        r == (a@ == b@),
{
    opt_text_eq(&a.module, &b.module) && opt_text_eq(&a.name, &b.name)
        && opt_text_eq(&a.filename, &b.filename)
        && opt_text_eq(&a.relative_path, &b.relative_path)
        && opt_text_eq(&a.absolute_path, &b.absolute_path)
        && a.line == b.line
}

/// Whether two frame sequences are equal, frame by frame.
pub fn frames_eq(a: &Vec<Frame>, b: &Vec<Frame>) -> (r: bool)
    ensures
        r == (frames_view(a@) == frames_view(b@)),
{
    if a.len() != b.len() {
        assert(frames_view(a@).len() != frames_view(b@).len());
        return false;
    }
    let mut i: usize = 0;
    while i < a.len()
        invariant
            a@.len() == b@.len(),
            i <= a@.len(),
            forall|j: int| 0 <= j < i ==> a@[j]@ == b@[j]@,
        decreases a@.len() - i,
    {
        if !frame_eq(&a[i], &b[i]) {
            assert(frames_view(a@)[i as int] != frames_view(b@)[i as int]);
            return false;
        }
        i = i + 1;
    }
    assert(frames_view(a@) =~= frames_view(b@));
    true
}

/// An optional line number as stored in a frame.
pub open spec fn line_of(l: Option<usize>) -> Option<u64> {
    match l {
        Some(v) => Some(v as u64),
        None => None,
    }
}

/// The frame that the parts of a sampler frame become (see `frame_from_sampler`).
pub open spec fn frame_view_of(p: FrameParts) -> FrameView {
    FrameView {
        module: None,
        name: Some(p.0@),
        filename: Some(p.1@),
        relative_path: Some(p.1@),
        absolute_path: opt_text(p.2),
        line: line_of(p.3),
    }
}

/// A process id as stored in a trace: its bits read as unsigned.
pub open spec fn pid_of(p: Option<i32>) -> Option<u32> {
    match p {
        Some(v) => Some(v as u32),
        None => None,
    }
}

/// A thread id as stored in a trace.
pub open spec fn thread_id_of(t: Option<usize>) -> Option<u64> {
    match t {
        Some(v) => Some(v as u64),
        None => None,
    }
}

/// `t` is the trace made of the given parts of a sampler trace: the ids
/// converted, no thread name, and each frame converted in capture order.
pub open spec fn is_trace_of_parts(t: Trace, pid: Option<i32>, thread_id: Option<usize>, frames: Seq<FrameParts>) -> bool {
    &&& t.pid == pid_of(pid)
    &&& t.thread_id == thread_id_of(thread_id)
    &&& t.thread_name is None
    &&& frames_view(t.frames@) == frames.map_values(|p: FrameParts| frame_view_of(p))
}

fn clone_opt_text(o: &Option<String>) -> (r: Option<String>)
    ensures
        opt_text(r) == opt_text(*o),
{
    match o {
        Some(s) => Some(s.clone()),
        None => None,
    }
}

/// The trace made of the parts of a sampler trace, frames in capture order.
pub fn trace_from_parts(pid: Option<i32>, thread_id: Option<usize>, frames: Vec<FrameParts>) -> (r: Trace)
    ensures
        is_trace_of_parts(r, pid, thread_id, frames@),
{
    let mut out: Vec<Frame> = Vec::new();
    let mut i: usize = 0;
    while i < frames.len()
        invariant
            i <= frames@.len(),
            frames_view(out@) == frames@.take(i as int).map_values(|p: FrameParts| frame_view_of(p)),
        decreases frames@.len() - i,
    {
        let f = frame_from_sampler(
            frames[i].0.clone(),
            frames[i].1.clone(),
            clone_opt_text(&frames[i].2),
            frames[i].3,
        );
        assert(f@ == frame_view_of(frames@[i as int]));
        let ghost before = out@;
        out.push(f);
        assert(frames_view(out@) =~= frames_view(before).push(f@));
        assert(frames@.take(i as int + 1).map_values(|p: FrameParts| frame_view_of(p))
            =~= frames@.take(i as int).map_values(|p: FrameParts| frame_view_of(p)).push(frame_view_of(frames@[i as int])));
        i = i + 1;
    }
    assert(frames@.take(frames@.len() as int) =~= frames@);
    let p: Option<u32> = match pid {
        Some(v) => Some(v as u32),
        None => None,
    };
    let t: Option<u64> = match thread_id {
        Some(v) => Some(v as u64),
        None => None,
    };
    trace_from_sampler(p, t, out)
}

} // verus!
