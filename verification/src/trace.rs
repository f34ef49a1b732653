//! Reconstruction of a nested call tree from the flat, pre-order sequence of
//! call/return events that the engine emits while applying a message.
//!
//! A `Call` event opens a frame; the next unmatched `Return` event at the
//! same nesting depth seals it. The whole reconstruction is specified by the
//! stack machine [`run`]: the executable reconstructor is proved to return
//! exactly what that machine computes, and the laws about descendant counts
//! and full consumption are proved of the machine itself.

use vstd::prelude::*;

use crate::exit_code::{exit_code_for, map_dispatch_failure, DispatchFailure, EXIT_OK};

verus! {

/// The message fields carried by a `Call` event and retained by the frame it
/// opens. Addresses are carried as actor identifiers; the transferred value
/// is a 128-bit economic quantity.
#[derive(Clone, Debug, PartialEq, Eq)]
pub struct MessageData {
    pub from: u64,
    pub to: u64,
    pub method: u64,
    pub params: Vec<u8>,
    pub value: u128,
}

/// The receipt a frame is sealed with: a fixed-vocabulary exit code and the
/// returned payload (empty unless the call succeeded with data).
#[derive(Clone, Debug, PartialEq, Eq)]
pub struct ReceiptData {
    pub exit_code: u32,
    pub return_data: Vec<u8>,
}

/// How a call ended: a successful return with payload, a failure inside the
/// receiving actor with its exit code, or a failure to dispatch the call at
/// all.
#[derive(Clone, Debug, PartialEq, Eq)]
pub enum Outcome {
    Success(Vec<u8>),
    Failure(u32),
    DispatchError(DispatchFailure),
}

/// One element of the engine's flat event stream.
#[derive(Clone, Debug, PartialEq, Eq)]
pub enum Event {
    Call(MessageData),
    Return(Outcome),
}

/// A reconstructed trace node: the message that opened the frame, the
/// receipt it was sealed with, an error text, and the child frames in call
/// order.
pub struct CallFrame {
    pub msg: MessageData,
    pub receipt: ReceiptData,
    pub error: String,
    pub children: Vec<CallFrame>,
}

/// Reconstruction fails only this way: the event stream violates the
/// call/return stack discipline.
#[derive(Clone, Copy, Debug, PartialEq, Eq, Structural)]
pub enum TraceError {
    MalformedTrace,
}

// ---------------------------------------------------------------------------
// Mathematical model
// ---------------------------------------------------------------------------

/// Model of a message: the same fields with the payload as a byte sequence.
pub ghost struct SpecMessage {
    pub from: u64,
    pub to: u64,
    pub method: u64,
    pub params: Seq<u8>,
    pub value: u128,
}

/// Model of a receipt.
pub ghost struct SpecReceipt {
    pub exit_code: u32,
    pub return_data: Seq<u8>,
}

/// Model of an outcome.
pub ghost enum SpecOutcome {
    Success(Seq<u8>),
    Failure(u32),
    DispatchError(DispatchFailure),
}

/// Model of an event.
pub ghost enum SpecEvent {
    Call(SpecMessage),
    Return(SpecOutcome),
}

/// Model of a trace node.
pub ghost struct SpecFrame {
    pub msg: SpecMessage,
    pub receipt: SpecReceipt,
    pub error: Seq<char>,
    pub children: Seq<SpecFrame>,
}

/// A frame that has been opened by a `Call` event and not yet sealed: its
/// message, and the children reconstructed so far.
pub ghost struct SpecOpenFrame {
    pub msg: SpecMessage,
    pub children: Seq<SpecFrame>,
}

pub open spec fn msg_view(m: MessageData) -> SpecMessage {
    SpecMessage { from: m.from, to: m.to, method: m.method, params: m.params@, value: m.value }
}

pub open spec fn receipt_view(rc: ReceiptData) -> SpecReceipt {
    SpecReceipt { exit_code: rc.exit_code, return_data: rc.return_data@ }
}

pub open spec fn outcome_view(o: Outcome) -> SpecOutcome {
    match o {
        Outcome::Success(d) => SpecOutcome::Success(d@),
        Outcome::Failure(c) => SpecOutcome::Failure(c),
        Outcome::DispatchError(r) => SpecOutcome::DispatchError(r),
    }
}

pub open spec fn event_view(e: Event) -> SpecEvent {
    match e {
        Event::Call(m) => SpecEvent::Call(msg_view(m)),
        Event::Return(o) => SpecEvent::Return(outcome_view(o)),
    }
}

pub open spec fn events_view(s: Seq<Event>) -> Seq<SpecEvent> {
    Seq::new(s.len(), |i: int| event_view(s[i]))
}

/// Model of a sequence of reconstructed frames.
pub open spec fn frames_view(s: Seq<CallFrame>) -> Seq<SpecFrame>
    decreases s,
{
    if s.len() == 0 {
        Seq::empty()
    } else {
        frames_view(s.subrange(0, s.len() - 1)).push(frame_view(s[s.len() - 1]))
    }
}

/// Model of a reconstructed frame.
pub open spec fn frame_view(f: CallFrame) -> SpecFrame
    decreases f,
{
    SpecFrame {
        msg: msg_view(f.msg),
        receipt: receipt_view(f.receipt),
        error: f.error@,
        children: frames_view(f.children@),
    }
}

pub proof fn lemma_frames_view_len(s: Seq<CallFrame>)
    ensures
        frames_view(s).len() == s.len(),
    decreases s,
{
    if s.len() > 0 {
        lemma_frames_view_len(s.subrange(0, s.len() - 1));
    }
}

pub proof fn lemma_frames_view_index(s: Seq<CallFrame>, j: int)
    requires
        0 <= j < s.len(),
    ensures
        frames_view(s).len() == s.len(),
        frames_view(s)[j] == frame_view(s[j]),
    decreases s,
{
    lemma_frames_view_len(s);
    if s.len() > 0 && j < s.len() - 1 {
        lemma_frames_view_index(s.subrange(0, s.len() - 1), j);
        lemma_frames_view_len(s.subrange(0, s.len() - 1));
    }
}

pub proof fn lemma_frames_view_push(s: Seq<CallFrame>, f: CallFrame)
    ensures
        frames_view(s.push(f)) == frames_view(s).push(frame_view(f)),
{
    assert(s.push(f).subrange(0, s.push(f).len() - 1) =~= s);
    assert(s.push(f)[s.push(f).len() - 1] == f);
}

/// The receipt a frame is sealed with for a given return outcome, or `None`
/// where the outcome itself violates the contract: a failure outcome is
/// never allowed to carry the success exit code.
pub open spec fn receipt_of(o: SpecOutcome) -> Option<SpecReceipt> {
    match o {
        SpecOutcome::Success(d) => Some(SpecReceipt { exit_code: EXIT_OK, return_data: d }),
        SpecOutcome::Failure(c) => if c == EXIT_OK {
            None
        } else {
            Some(SpecReceipt { exit_code: c, return_data: Seq::empty() })
        },
        SpecOutcome::DispatchError(r) => Some(
            SpecReceipt { exit_code: exit_code_for(r), return_data: Seq::empty() },
        ),
    }
}

/// The stack machine that defines reconstruction. Starting at position `i`
/// with the given stack of open frames, it consumes events until the
/// bottom-most open frame is sealed, and yields that frame together with the
/// position just past the sealing `Return`; it yields `None` where the
/// stream is malformed: a `Return` with no open frame to seal, a failure
/// outcome carrying the success exit code, or a stream that ends while
/// frames are still open.
pub open spec fn run(s: Seq<SpecEvent>, i: int, stack: Seq<SpecOpenFrame>) -> Option<
    (SpecFrame, int),
>
    decreases s.len() - i,
{
    if i < 0 || i >= s.len() {
        None
    } else {
        match s[i] {
            SpecEvent::Call(m) => run(
                s,
                i + 1,
                stack.push(SpecOpenFrame { msg: m, children: Seq::empty() }),
            ),
            SpecEvent::Return(o) => match receipt_of(o) {
                None => None,
                Some(rc) => if stack.len() == 0 {
                    None
                } else {
                    let top = stack[stack.len() - 1];
                    let frame = SpecFrame {
                        msg: top.msg,
                        receipt: rc,
                        error: Seq::empty(),
                        children: top.children,
                    };
                    if stack.len() == 1 {
                        Some((frame, i + 1))
                    } else {
                        let parent = stack[stack.len() - 2];
                        run(
                            s,
                            i + 1,
                            stack.subrange(0, stack.len() - 2).push(
                                SpecOpenFrame {
                                    msg: parent.msg,
                                    children: parent.children.push(frame),
                                },
                            ),
                        )
                    }
                },
            },
        }
    }
}

/// What reconstruction computes on a whole stream: the machine started at
/// the front with no open frame.
pub open spec fn reconstruct_spec(s: Seq<SpecEvent>) -> Option<(SpecFrame, int)> {
    run(s, 0, Seq::empty())
}

// ---------------------------------------------------------------------------
// Measures: node counts, nesting depth, open-call depth
// ---------------------------------------------------------------------------

/// Total number of nodes in a frame, the frame itself included; its
/// descendant count is therefore this number minus one.
pub open spec fn frame_count(f: SpecFrame) -> nat
    decreases f,
{
    1 + forest_count(f.children)
}

/// Total number of nodes in a sequence of frames.
pub open spec fn forest_count(fs: Seq<SpecFrame>) -> nat
    decreases fs,
{
    if fs.len() == 0 {
        0
    } else {
        forest_count(fs.subrange(0, fs.len() - 1)) + frame_count(fs[fs.len() - 1])
    }
}

/// Nesting depth of a frame: a leaf has depth one.
pub open spec fn frame_depth(f: SpecFrame) -> int
    decreases f,
{
    1 + forest_depth(f.children)
}

/// Greatest nesting depth over a sequence of frames; zero when empty.
pub open spec fn forest_depth(fs: Seq<SpecFrame>) -> int
    decreases fs,
{
    if fs.len() == 0 {
        0
    } else {
        let rest = forest_depth(fs.subrange(0, fs.len() - 1));
        let last = frame_depth(fs[fs.len() - 1]);
        if rest >= last {
            rest
        } else {
            last
        }
    }
}

/// How an event changes the number of open calls.
pub open spec fn delta(e: SpecEvent) -> int {
    match e {
        SpecEvent::Call(_) => 1,
        SpecEvent::Return(_) => -1,
    }
}

/// Net change of the number of open calls over a whole sequence.
pub open spec fn excess(s: Seq<SpecEvent>) -> int
    decreases s,
{
    if s.len() == 0 {
        0
    } else {
        delta(s[0]) + excess(s.subrange(1, s.len() as int))
    }
}

/// Maximum concurrent open-call depth reached over the sequence, relative to
/// its starting point: the greatest excess of any prefix.
pub open spec fn peak(s: Seq<SpecEvent>) -> int
    decreases s,
{
    if s.len() == 0 {
        0
    } else {
        let tail = delta(s[0]) + peak(s.subrange(1, s.len() as int));
        if tail >= 0 {
            tail
        } else {
            0
        }
    }
}

/// Number of `Call` events in the sequence.
pub open spec fn call_count(s: Seq<SpecEvent>) -> nat
    decreases s,
{
    if s.len() == 0 {
        0
    } else {
        (if s[0] is Call {
            1nat
        } else {
            0nat
        }) + call_count(s.subrange(1, s.len() as int))
    }
}

/// Every `Return` in the sequence carries an outcome that seals a receipt.
pub open spec fn returns_valid(s: Seq<SpecEvent>) -> bool
    decreases s,
{
    if s.len() == 0 {
        true
    } else {
        (match s[0] {
            SpecEvent::Return(o) => receipt_of(o) is Some,
            SpecEvent::Call(_) => true,
        }) && returns_valid(s.subrange(1, s.len() as int))
    }
}

/// A well-formed stream: non-empty, every proper prefix leaves at least one
/// call open, the whole stream closes every call it opens, and every return
/// outcome is valid.
pub open spec fn well_formed(s: Seq<SpecEvent>) -> bool {
    &&& s.len() > 0
    &&& excess(s) == 0
    &&& forall|k: int| 0 < k < s.len() ==> #[trigger] excess(s.subrange(0, k)) > 0
    &&& returns_valid(s)
}

/// Nodes held by the open-frame stack: each open frame plus the finished
/// subtrees already attached to it.
pub open spec fn open_nodes(stack: Seq<SpecOpenFrame>) -> nat
    decreases stack,
{
    if stack.len() == 0 {
        0
    } else {
        open_nodes(stack.subrange(0, stack.len() - 1)) + 1 + forest_count(
            stack[stack.len() - 1].children,
        )
    }
}

/// Greatest nesting depth already reached by the open-frame stack: the frame
/// at stack position `t` sits at depth `t + 1`, and its finished children
/// reach `t + 1` levels deeper than their own depth.
pub open spec fn open_depth(stack: Seq<SpecOpenFrame>) -> int
    decreases stack,
{
    if stack.len() == 0 {
        0
    } else {
        let rest = open_depth(stack.subrange(0, stack.len() - 1));
        let here = stack.len() + forest_depth(stack[stack.len() - 1].children);
        if rest >= here {
            rest
        } else {
            here
        }
    }
}

pub proof fn lemma_forest_count_push(fs: Seq<SpecFrame>, f: SpecFrame)
    ensures
        forest_count(fs.push(f)) == forest_count(fs) + frame_count(f),
{
    assert(fs.push(f).subrange(0, fs.push(f).len() - 1) =~= fs);
    assert(fs.push(f)[fs.push(f).len() - 1] == f);
}

pub proof fn lemma_forest_depth_push(fs: Seq<SpecFrame>, f: SpecFrame)
    ensures
        forest_depth(fs.push(f)) == if forest_depth(fs) >= frame_depth(f) {
            forest_depth(fs)
        } else {
            frame_depth(f)
        },
{
    assert(fs.push(f).subrange(0, fs.push(f).len() - 1) =~= fs);
    assert(fs.push(f)[fs.push(f).len() - 1] == f);
}

pub proof fn lemma_peak_nonneg(s: Seq<SpecEvent>)
    ensures
        peak(s) >= 0,
    decreases s,
{
}

pub proof fn lemma_forest_depth_nonneg(fs: Seq<SpecFrame>)
    ensures
        forest_depth(fs) >= 0,
    decreases fs,
{
    if fs.len() > 0 {
        lemma_forest_depth_nonneg(fs.subrange(0, fs.len() - 1));
    }
}

/// The inductive heart of the reconstruction laws. Started anywhere with at
/// least one open frame, on a remainder that closes every open frame exactly
/// at its end and whose returns are all valid, the machine consumes the
/// whole remainder; the root it yields accounts for every node on the stack
/// plus one per remaining `Call`, and its depth is the greater of the depth
/// already reached and the depth the remainder still climbs to.
pub proof fn lemma_run_counts(s: Seq<SpecEvent>, i: int, stack: Seq<SpecOpenFrame>)
    requires
        0 <= i <= s.len(),
        stack.len() >= 1,
        excess(s.subrange(i, s.len() as int)) == -(stack.len() as int),
        forall|k: int| 0 <= k < s.len() - i ==> #[trigger] excess(s.subrange(i, i + k)) > -(
        stack.len() as int),
        returns_valid(s.subrange(i, s.len() as int)),
    ensures
        run(s, i, stack) matches Some(p) && p.1 == s.len() && frame_count(p.0) == open_nodes(stack)
            + call_count(s.subrange(i, s.len() as int)) && frame_depth(p.0) == ({
            let climb = stack.len() + peak(s.subrange(i, s.len() as int));
            if open_depth(stack) >= climb {
                open_depth(stack)
            } else {
                climb
            }
        }),
    decreases s.len() - i,
{
    assert(excess(Seq::<SpecEvent>::empty()) == 0);
    let rest = s.subrange(i, s.len() as int);
    if rest.len() == 0 {
        assert(excess(rest) == 0);
        assert(false);
    }
    assert(i < s.len());
    assert(rest[0] == s[i]);
    let rest1 = s.subrange(i + 1, s.len() as int);
    assert(rest.subrange(1, rest.len() as int) =~= rest1);
    lemma_peak_nonneg(rest1);
    assert(forest_count(Seq::<SpecFrame>::empty()) == 0);
    assert(forest_depth(Seq::<SpecFrame>::empty()) == 0);
    assert(call_count(Seq::<SpecEvent>::empty()) == 0);
    assert(peak(Seq::<SpecEvent>::empty()) == 0);
    assert(open_nodes(Seq::<SpecOpenFrame>::empty()) == 0);
    assert(open_depth(Seq::<SpecOpenFrame>::empty()) == 0);
    assert(excess(rest) == delta(s[i]) + excess(rest1));
    assert(call_count(rest) == (if s[i] is Call {
        1nat
    } else {
        0nat
    }) + call_count(rest1));
    assert(returns_valid(rest1));
    assert(peak(rest) == if delta(s[i]) + peak(rest1) >= 0 {
        delta(s[i]) + peak(rest1)
    } else {
        0
    });
    match s[i] {
        SpecEvent::Call(m) => {
            let entry = SpecOpenFrame { msg: m, children: Seq::empty() };
            let stack1 = stack.push(entry);
            assert forall|k: int| 0 <= k < s.len() - (i + 1) implies #[trigger] excess(
                s.subrange(i + 1, i + 1 + k),
            ) > -(stack1.len() as int) by {
                let kk: int = k + 1;
                assert(0 <= kk < s.len() - i);
                assert(excess(s.subrange(i, i + kk)) > -(stack.len() as int));
                let p = s.subrange(i, i + 1 + k);
                assert(p == s.subrange(i, i + kk));
                assert(p.subrange(1, p.len() as int) =~= s.subrange(i + 1, i + 1 + k));
                assert(p[0] == s[i]);
            }
            lemma_run_counts(s, i + 1, stack1);
            assert(stack1.subrange(0, stack1.len() - 1) =~= stack);
            assert(stack1[stack1.len() - 1] == entry);
            assert(open_nodes(stack1) == open_nodes(stack) + 1);
            assert(open_depth(stack1) == if open_depth(stack) >= stack1.len() as int {
                open_depth(stack)
            } else {
                stack1.len() as int
            });
            assert(peak(rest) == 1 + peak(rest1));
        },
        SpecEvent::Return(o) => {
            assert(receipt_of(o) is Some);
            let rc = receipt_of(o)->Some_0;
            let top = stack[stack.len() - 1];
            let frame = SpecFrame {
                msg: top.msg,
                receipt: rc,
                error: Seq::empty(),
                children: top.children,
            };
            if stack.len() == 1 {
                if rest.len() > 1 {
                    let p = s.subrange(i, i + 1);
                    assert(p.subrange(1, 1) =~= Seq::<SpecEvent>::empty());
                    assert(p[0] == s[i]);
                    assert(excess(p) == -1);
                    assert(excess(s.subrange(i, i + 1)) > -1);
                    assert(false);
                }
                assert(i + 1 == s.len());
                assert(run(s, i, stack) == Some((frame, i + 1)));
                assert(stack.subrange(0, stack.len() - 1) =~= Seq::<SpecOpenFrame>::empty());
                assert(rest1 =~= Seq::<SpecEvent>::empty());
                lemma_forest_depth_nonneg(top.children);
                assert(open_nodes(stack) == 1 + forest_count(top.children));
                assert(frame_count(frame) == 1 + forest_count(top.children));
                assert(frame_depth(frame) == 1 + forest_depth(top.children));
                assert(open_depth(stack) == 1 + forest_depth(top.children));
                assert(peak(rest) == 0);
            } else {
                let parent = stack[stack.len() - 2];
                let pre2 = stack.subrange(0, stack.len() - 2);
                let reparented = SpecOpenFrame {
                    msg: parent.msg,
                    children: parent.children.push(frame),
                };
                let stack1 = pre2.push(reparented);
                assert forall|k: int| 0 <= k < s.len() - (i + 1) implies #[trigger] excess(
                    s.subrange(i + 1, i + 1 + k),
                ) > -(stack1.len() as int) by {
                    let kk: int = k + 1;
                    assert(0 <= kk < s.len() - i);
                    assert(excess(s.subrange(i, i + kk)) > -(stack.len() as int));
                    let p = s.subrange(i, i + 1 + k);
                    assert(p == s.subrange(i, i + kk));
                    assert(p.subrange(1, p.len() as int) =~= s.subrange(i + 1, i + 1 + k));
                    assert(p[0] == s[i]);
                }
                lemma_run_counts(s, i + 1, stack1);
                // node bookkeeping: unfold the stack twice and move the
                // sealed frame's nodes from the stack top to the parent.
                let pre1 = stack.subrange(0, stack.len() - 1);
                assert(pre1.subrange(0, pre1.len() - 1) =~= pre2);
                assert(pre1[pre1.len() - 1] == parent);
                assert(stack1.subrange(0, stack1.len() - 1) =~= pre2);
                assert(stack1[stack1.len() - 1] == reparented);
                lemma_forest_count_push(parent.children, frame);
                lemma_forest_depth_push(parent.children, frame);
                lemma_forest_depth_nonneg(top.children);
                assert(frame_count(frame) == 1 + forest_count(top.children));
                assert(frame_depth(frame) == 1 + forest_depth(top.children));
                assert(open_nodes(pre1) == open_nodes(pre2) + 1 + forest_count(parent.children));
                assert(open_nodes(stack) == open_nodes(pre1) + 1 + forest_count(top.children));
                assert(open_nodes(stack1) == open_nodes(pre2) + 1 + forest_count(
                    reparented.children,
                ));
                assert(open_nodes(stack1) == open_nodes(stack));
                assert(open_depth(pre1) == if open_depth(pre2) >= pre1.len() as int + forest_depth(
                    parent.children,
                ) {
                    open_depth(pre2)
                } else {
                    pre1.len() as int + forest_depth(parent.children)
                });
                assert(open_depth(stack) == if open_depth(pre1) >= stack.len() as int
                    + forest_depth(top.children) {
                    open_depth(pre1)
                } else {
                    stack.len() as int + forest_depth(top.children)
                });
                assert(open_depth(stack1) == if open_depth(pre2) >= stack1.len() as int
                    + forest_depth(reparented.children) {
                    open_depth(pre2)
                } else {
                    stack1.len() as int + forest_depth(reparented.children)
                });
                assert(open_depth(stack1) == open_depth(stack));
                assert(open_depth(stack) >= stack.len() as int);
                assert(run(s, i, stack) == run(s, i + 1, stack1));
            }
        },
    }
}

/// Law: a well-formed event stream is consumed completely and yields exactly
/// one root frame; the root's node count equals the number of `Call` events
/// (its descendant count is that number minus one), and its nesting depth
/// equals the maximum concurrent open-call depth of the stream.
pub proof fn lemma_reconstruct_well_formed(s: Seq<SpecEvent>)
    requires
        well_formed(s),
    ensures
        reconstruct_spec(s) matches Some(p) && p.1 == s.len() && frame_count(p.0) == call_count(s)
            && frame_depth(p.0) == peak(s),
{
    assert(excess(Seq::<SpecEvent>::empty()) == 0);
    let rest1 = s.subrange(1, s.len() as int);
    if s.len() == 1 {
        assert(rest1 =~= Seq::<SpecEvent>::empty());
        assert(excess(s) == delta(s[0]));
        assert(false);
    }
    assert(s.subrange(0, 1)[0] == s[0]);
    assert(s.subrange(0, 1).subrange(1, 1) =~= Seq::<SpecEvent>::empty());
    assert(excess(s.subrange(0, 1)) == delta(s[0]));
    assert(excess(s.subrange(0, 1)) > 0);
    assert(delta(s[0]) > 0);
    assert(s[0] is Call);
    let m = s[0]->Call_0;
    let entry = SpecOpenFrame { msg: m, children: Seq::empty() };
    let stack1 = seq![entry];
    assert(Seq::<SpecOpenFrame>::empty().push(entry) =~= stack1);
    assert(excess(s) == delta(s[0]) + excess(rest1));
    assert(excess(rest1) == -1);
    assert(returns_valid(rest1));
    assert(s.subrange(0, s.len() as int) =~= s);
    assert forall|k: int| 0 <= k < s.len() - 1 implies #[trigger] excess(s.subrange(1, 1 + k)) > -1 by {
        if k == 0 {
            assert(s.subrange(1, 1) =~= Seq::<SpecEvent>::empty());
        } else {
            let kk: int = k + 1;
            assert(0 < kk < s.len());
            assert(excess(s.subrange(0, kk)) > 0);
            let p = s.subrange(0, 1 + k);
            assert(p == s.subrange(0, kk));
            assert(p.subrange(1, p.len() as int) =~= s.subrange(1, 1 + k));
            assert(p[0] == s[0]);
        }
    }
    lemma_run_counts(s, 1, stack1);
    lemma_peak_nonneg(rest1);
    assert(stack1.subrange(0, stack1.len() - 1) =~= Seq::<SpecOpenFrame>::empty());
    assert(stack1[stack1.len() - 1] == entry);
    assert(forest_count(Seq::<SpecFrame>::empty()) == 0);
    assert(forest_depth(Seq::<SpecFrame>::empty()) == 0);
    assert(open_nodes(Seq::<SpecOpenFrame>::empty()) == 0);
    assert(open_depth(Seq::<SpecOpenFrame>::empty()) == 0);
    assert(open_nodes(stack1) == 1);
    assert(open_depth(stack1) == 1);
    assert(call_count(s) == 1 + call_count(rest1));
    assert(peak(s) == 1 + peak(rest1));
    assert(run(s, 0, Seq::empty()) == run(s, 1, stack1));
}

/// Law: a `Return` event with no open call to seal fails reconstruction.
pub proof fn lemma_return_before_call(s: Seq<SpecEvent>)
    requires
        s.len() > 0,
        s[0] is Return,
    ensures
        reconstruct_spec(s) is None,
{
}

/// Law: a failure outcome carrying the success exit code fails
/// reconstruction wherever the machine meets it.
pub proof fn lemma_ok_failure_rejected(s: Seq<SpecEvent>, i: int, stack: Seq<SpecOpenFrame>)
    requires
        0 <= i < s.len(),
        s[i] == SpecEvent::Return(SpecOutcome::Failure(EXIT_OK)),
    ensures
        run(s, i, stack) is None,
{
}

// ---------------------------------------------------------------------------
// Executable reconstruction
// ---------------------------------------------------------------------------

/// Copies a byte buffer.
fn clone_bytes(v: &Vec<u8>) -> (r: Vec<u8>)
    ensures
        r@ == v@,
{
    let mut out: Vec<u8> = Vec::new();
    let mut j: usize = 0;
    while j < v.len()
        invariant
            j <= v@.len(),
            out@ == v@.subrange(0, j as int),
        decreases v@.len() - j,
    {
        out.push(v[j]);
        j = j + 1;
        proof {
            assert(out@ =~= v@.subrange(0, j as int));
        }
    }
    proof {
        assert(out@ =~= v@);
    }
    out
}

/// Copies the message fields out of a borrowed `Call` event.
fn clone_message(m: &MessageData) -> (r: MessageData)
    ensures
        msg_view(r) == msg_view(*m),
{
    MessageData {
        from: m.from,
        to: m.to,
        method: m.method,
        params: clone_bytes(&m.params),
        value: m.value,
    }
}

/// Seals a receipt from a return outcome, or reports the outcome invalid:
/// a failure outcome carrying the success exit code is rejected.
pub fn receipt_from_outcome(o: &Outcome) -> (r: Option<ReceiptData>)
    ensures
        match r {
            Some(rc) => receipt_of(outcome_view(*o)) == Some(receipt_view(rc)),
            None => receipt_of(outcome_view(*o)) is None,
        },
{
    match o {
        Outcome::Success(d) => Some(
            ReceiptData { exit_code: EXIT_OK, return_data: clone_bytes(d) },
        ),
        Outcome::Failure(c) => {
            if *c == EXIT_OK {
                None
            } else {
                Some(ReceiptData { exit_code: *c, return_data: Vec::new() })
            }
        },
        Outcome::DispatchError(reason) => Some(
            ReceiptData { exit_code: map_dispatch_failure(*reason), return_data: Vec::new() },
        ),
    }
}

struct OpenFrame {
    msg: MessageData,
    children: Vec<CallFrame>,
}

spec fn open_frame_view(e: OpenFrame) -> SpecOpenFrame {
    SpecOpenFrame { msg: msg_view(e.msg), children: frames_view(e.children@) }
}

spec fn open_stack_view(s: Seq<OpenFrame>) -> Seq<SpecOpenFrame> {
    Seq::new(s.len(), |i: int| open_frame_view(s[i]))
}

/// Reconstructs one frame from the event stream, starting at `start`, which
/// must hold its opening `Call`. On success the frame and the position just
/// past its sealing `Return` are returned; the result is exactly what the
/// specification machine [`run`] computes there, and reconstruction fails
/// with `MalformedTrace` exactly where the machine rejects the stream.
pub fn build_trace(events: &Vec<Event>, start: usize) -> (r: Result<
    (CallFrame, usize),
    TraceError,
>)
    ensures
        match r {
            Ok(p) => run(events_view(events@), start as int, Seq::empty())
                == Some((frame_view(p.0), p.1 as int)) && start < p.1 && p.1 <= events@.len(),
            Err(e) => e == TraceError::MalformedTrace && run(
                events_view(events@),
                start as int,
                Seq::empty(),
            ) is None,
        },
{
    let ghost s = events_view(events@);
    proof {
        assert(s.len() == events@.len());
    }
    if start >= events.len() {
        return Err(TraceError::MalformedTrace);
    }
    let mut stack: Vec<OpenFrame> = Vec::new();
    let mut i: usize = start;
    proof {
        assert(open_stack_view(stack@) =~= Seq::<SpecOpenFrame>::empty());
    }
    loop
        invariant
            start <= i && i <= events@.len(),
            s == events_view(events@),
            run(s, start as int, Seq::empty()) == run(s, i as int, open_stack_view(stack@)),
        decreases events@.len() - i,
    {
        if i >= events.len() {
            return Err(TraceError::MalformedTrace);
        }
        let ghost osv0 = open_stack_view(stack@);
        match &events[i] {
            Event::Call(m) => {
                let opened = OpenFrame { msg: clone_message(m), children: Vec::new() };
                proof {
                    assert(s[i as int] == SpecEvent::Call(msg_view(*m)));
                    assert(open_stack_view(stack@.push(opened)) =~= osv0.push(
                        SpecOpenFrame { msg: msg_view(*m), children: Seq::empty() },
                    ));
                    assert(run(s, i as int, osv0) == run(
                        s,
                        i as int + 1,
                        osv0.push(SpecOpenFrame { msg: msg_view(*m), children: Seq::empty() }),
                    ));
                }
                stack.push(opened);
            },
            Event::Return(o) => {
                proof {
                    assert(s[i as int] == SpecEvent::Return(outcome_view(*o)));
                }
                let rc = match receipt_from_outcome(o) {
                    Some(rc) => rc,
                    None => {
                        return Err(TraceError::MalformedTrace);
                    },
                };
                let top = match stack.pop() {
                    Some(top) => top,
                    None => {
                        proof {
                            assert(osv0.len() == 0);
                        }
                        return Err(TraceError::MalformedTrace);
                    },
                };
                let frame = CallFrame {
                    msg: top.msg,
                    receipt: rc,
                    error: String::new(),
                    children: top.children,
                };
                let ghost frame_spec = frame_view(frame);
                proof {
                    assert(osv0[osv0.len() - 1] == open_frame_view(top));
                    assert(frame_spec == SpecFrame {
                        msg: open_frame_view(top).msg,
                        receipt: receipt_view(rc),
                        error: Seq::<char>::empty(),
                        children: open_frame_view(top).children,
                    });
                }
                if stack.len() == 0 {
                    proof {
                        assert(osv0.len() == 1);
                        assert(run(s, i as int, osv0) == Some((frame_spec, i as int + 1)));
                    }
                    return Ok((frame, i + 1));
                }
                let mut parent = match stack.pop() {
                    Some(parent) => parent,
                    None => {
                        return Err(TraceError::MalformedTrace);
                    },
                };
                proof {
                    assert(osv0[osv0.len() - 2] == open_frame_view(parent));
                    assert(open_stack_view(stack@) =~= osv0.subrange(0, osv0.len() - 2));
                    lemma_frames_view_push(parent.children@, frame);
                }
                let ghost parent0 = parent;
                parent.children.push(frame);
                let ghost reparented = parent;
                proof {
                    assert(open_frame_view(reparented) == SpecOpenFrame {
                        msg: open_frame_view(parent0).msg,
                        children: open_frame_view(parent0).children.push(frame_spec),
                    });
                    assert(open_stack_view(stack@.push(reparented)) =~= open_stack_view(stack@)
                        .push(open_frame_view(reparented)));
                    assert(run(s, i as int, osv0) == run(
                        s,
                        i as int + 1,
                        osv0.subrange(0, osv0.len() - 2).push(open_frame_view(reparented)),
                    ));
                }
                stack.push(parent);
            },
        }
        i = i + 1;
    }
}

/// Reconstructs the call tree of a whole event stream. An empty stream
/// carries no trace, which is not an error; a malformed stream fails with
/// `MalformedTrace`; otherwise the root frame is built from the front of
/// the stream, exactly as the specification machine computes it.
pub fn reconstruct_trace(events: &Vec<Event>) -> (r: Result<Option<CallFrame>, TraceError>)
    ensures
        match r {
            Ok(opt) => match opt {
                None => events@.len() == 0,
                Some(f) => events@.len() > 0 && (reconstruct_spec(events_view(events@))
                    matches Some(p) && p.0 == frame_view(f)),
            },
            Err(e) => e == TraceError::MalformedTrace && events@.len() > 0 && reconstruct_spec(
                events_view(events@),
            ) is None,
        },
{
    if events.len() == 0 {
        return Ok(None);
    }
    match build_trace(events, 0) {
        Ok(built) => Ok(Some(built.0)),
        Err(e) => Err(e),
    }
}

} // verus!
