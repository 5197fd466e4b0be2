//! A collection run over a flat store on disk, as a state machine: the run says which block
//! file to read, remove or rewrite next, is told what the file held, and keeps the stack of
//! blocks whose links it is dropping and the list of CIDs removed.

use vstd::prelude::*;
use crate::store::flatfs::{gc_ref_step, gc_start, gc_takes, ref_step, GcStart};
use crate::store::memstore::{bytes_eq, cid_codec_of, copy_bytes, dagcbor_code, dagcbor_links_of, raw_code, StoreError};

verus! {

/// What the run asks for next.
#[derive(Debug)]
pub enum GcAction {
    /// Read the reference count of the block's file and, when it is zero, the bytes after it;
    /// answer with `GcEvent::Block`.
    ReadBlock(Vec<u8>),
    /// Remove the block's file; answer with `GcEvent::Done`.
    RemoveBlock(Vec<u8>),
    /// Read the reference count of the block's file; answer with `GcEvent::Count`.
    ReadCount(Vec<u8>),
    /// Write this reference count into the block's file; answer with `GcEvent::Done`.
    WriteCount(Vec<u8>, u64),
    /// The run is over: these CIDs were removed, each once, in the order of removal.
    Finish(Vec<Vec<u8>>),
    /// The run stopped with this error.
    Fail(StoreError),
}

/// What the store answered.
#[derive(Debug)]
pub enum GcEvent {
    /// The block's count (`None` when its file could not be opened) and the bytes after the
    /// count (read only when the count is zero).
    Block(Option<u64>, Vec<u8>),
    /// The count read from a file (`None` when it could not be opened).
    Count(Option<u64>),
    /// The asked removal or write was done.
    Done,
}

/// What the run waits for.
#[derive(Debug)]
pub enum GcWait {
    /// The count and bytes of this block.
    Block(Vec<u8>),
    /// The removal of this block, after which the links are dropped.
    Removal(Vec<u8>, Vec<Vec<u8>>),
    /// The count of this block.
    Count(Vec<u8>),
    /// The write of this count into this block's file; the block is collected next when the
    /// flag says so.
    Write(Vec<u8>, u64, bool),
    /// Nothing: the run is over.
    Over,
}

/// The abstract content of what the run waits for.
pub enum WaitView {
    /// The count and bytes of this block.
    Block(Seq<u8>),
    /// The removal of this block, after which these links are dropped.
    Removal(Seq<u8>, Seq<Seq<u8>>),
    /// The count of this block.
    Count(Seq<u8>),
    /// The write of this count into this block's file, and whether it is collected next.
    Write(Seq<u8>, u64, bool),
    /// Nothing.
    Over,
}

impl View for GcWait {
    type V = WaitView;

    open spec fn view(&self) -> WaitView {
        match self {
            GcWait::Block(c) => WaitView::Block(c@),
            GcWait::Removal(c, refs) => WaitView::Removal(c@, refs.deep_view()),
            GcWait::Count(c) => WaitView::Count(c@),
            GcWait::Write(c, n, k) => WaitView::Write(c@, *n, *k),
            GcWait::Over => WaitView::Over,
        }
    }
}

/// The abstract content of an action.
pub enum ActionView {
    /// Read a block.
    ReadBlock(Seq<u8>),
    /// Remove a block.
    RemoveBlock(Seq<u8>),
    /// Read a count.
    ReadCount(Seq<u8>),
    /// Write a count.
    WriteCount(Seq<u8>, u64),
    /// The run is over, with these CIDs removed.
    Finish(Seq<Seq<u8>>),
    /// The run stopped: the links of the DAG-CBOR block with this CID could not be read.
    Unreadable(Seq<u8>),
}

/// Whether the action is the abstract one.
pub open spec fn action_is(a: GcAction, v: ActionView) -> bool {
    match v {
        ActionView::ReadBlock(c) => a matches GcAction::ReadBlock(x) && x@ == c,
        ActionView::RemoveBlock(c) => a matches GcAction::RemoveBlock(x) && x@ == c,
        ActionView::ReadCount(c) => a matches GcAction::ReadCount(x) && x@ == c,
        ActionView::WriteCount(c, n) => a matches GcAction::WriteCount(x, m) && x@ == c && m == n,
        ActionView::Finish(v) => a matches GcAction::Finish(x) && x.deep_view() == v,
        ActionView::Unreadable(c) => a matches GcAction::Fail(StoreError::UnreadableLinks(x)) && x@ == c,
    }
}

/// The abstract state of a run: the blocks whose links are being dropped, each with its links
/// and how many of them were dropped, the CIDs removed, and what the run waits for.
pub struct GcRunView {
    /// The blocks whose links are being dropped, the innermost last.
    pub frames: Seq<(Seq<Seq<u8>>, nat)>,
    /// The CIDs removed, in order.
    pub removed: Seq<Seq<u8>>,
    /// What the run waits for.
    pub wait: WaitView,
}

/// Where a run goes once nothing is under way: frames whose links are all dropped are left,
/// and the next link of the innermost other frame is read; with no frame left the run is over.
pub open spec fn advance(frames: Seq<(Seq<Seq<u8>>, nat)>, removed: Seq<Seq<u8>>) -> (GcRunView, ActionView)
    decreases frames.len(),
{
    if frames.len() == 0 {
        (GcRunView { frames, removed, wait: WaitView::Over }, ActionView::Finish(removed))
    } else if frames.last().1 < frames.last().0.len() {
        let r = frames.last().0[frames.last().1 as int];
        (
            GcRunView { frames, removed, wait: WaitView::Count(r) },
            ActionView::ReadCount(r),
        )
    } else {
        advance(frames.drop_last(), removed)
    }
}

/// What starting to collect a block gives, from the count and bytes read from its file: the
/// block is kept (`None`), or removed and then its links dropped (`Some` of the links, none
/// for a raw block); `Err` when the links of a DAG-CBOR block cannot be read. Only a block
/// whose file held a count of zero is removed, and only while counting is on.
pub open spec fn start_outcome(enable: bool, count: Option<u64>, cid: Seq<u8>, data: Seq<u8>) -> Result<Option<Seq<Seq<u8>>>, ()> {
    if !gc_takes(enable, count, cid) {
        Ok(None)
    } else {
        let code = cid_codec_of(cid)->Some_0;
        if code == raw_code() {
            Ok(Some(Seq::empty()))
        } else if code == dagcbor_code() {
            match dagcbor_links_of(data) {
                Some(links) => Ok(Some(links)),
                None => Err(()),
            }
        } else {
            Ok(None)
        }
    }
}

/// One step of a run with counting `enable`d, from the state `s` and the store's answer: the
/// next state and action. An answer of another kind than the one waited for changes nothing
/// and repeats the wait.
pub open spec fn gc_step(enable: bool, s: GcRunView, ev: EventView) -> (GcRunView, ActionView) {
    match s.wait {
        WaitView::Block(c) => match ev {
            EventView::Block(count, data) => match start_outcome(enable, count, c, data) {
                Err(_) => (GcRunView { frames: s.frames, removed: s.removed, wait: WaitView::Over }, ActionView::Unreadable(c)),
                Ok(None) => advance(s.frames, s.removed),
                Ok(Some(links)) => (
                    GcRunView { frames: s.frames, removed: s.removed, wait: WaitView::Removal(c, links) },
                    ActionView::RemoveBlock(c),
                ),
            },
            _ => (s, ActionView::ReadBlock(c)),
        },
        WaitView::Removal(c, links) => match ev {
            EventView::Done => advance(
                s.frames.push((links, 0)),
                if s.removed.contains(c) { s.removed } else { s.removed.push(c) },
            ),
            _ => (s, ActionView::RemoveBlock(c)),
        },
        WaitView::Count(r) => match ev {
            EventView::Count(count) => {
                let f = s.frames.last();
                let frames = s.frames.update(s.frames.len() - 1, (f.0, f.1 + 1));
                let st = ref_step(count);
                match st.write {
                    Some(n) => (
                        GcRunView { frames, removed: s.removed, wait: WaitView::Write(r, n, st.collect) },
                        ActionView::WriteCount(r, n),
                    ),
                    None => advance(frames, s.removed),
                }
            },
            _ => (s, ActionView::ReadCount(r)),
        },
        WaitView::Write(r, n, collect) => match ev {
            EventView::Done => if collect {
                (GcRunView { frames: s.frames, removed: s.removed, wait: WaitView::Block(r) }, ActionView::ReadBlock(r))
            } else {
                advance(s.frames, s.removed)
            },
            _ => (s, ActionView::WriteCount(r, n)),
        },
        WaitView::Over => (s, ActionView::Finish(s.removed)),
    }
}

/// The abstract content of an answer.
pub enum EventView {
    /// A count and bytes.
    Block(Option<u64>, Seq<u8>),
    /// A count.
    Count(Option<u64>),
    /// Done.
    Done,
}

impl View for GcEvent {
    type V = EventView;

    open spec fn view(&self) -> EventView {
        match self {
            GcEvent::Block(c, d) => EventView::Block(*c, d@),
            GcEvent::Count(c) => EventView::Count(*c),
            GcEvent::Done => EventView::Done,
        }
    }
}

/// A frame of a run: the links of a removed block and how many were dropped.
#[derive(Debug)]
pub struct GcFrame {
    refs: Vec<Vec<u8>>,
    next: usize,
}

/// A collection run.
#[derive(Debug)]
pub struct GcRun {
    enable_refcount: bool,
    frames: Vec<GcFrame>,
    removed: Vec<Vec<u8>>,
    wait: GcWait,
}

impl GcRun {
    /// Whether counting is on.
    pub closed spec fn spec_enable(&self) -> bool {
        self.enable_refcount
    }

    /// The abstract state.
    pub closed spec fn spec_view(&self) -> GcRunView {
        GcRunView {
            frames: self.frames@.map_values(|f: GcFrame| (f.refs.deep_view(), f.next as nat)),
            removed: self.removed.deep_view(),
            wait: self.wait@,
        }
    }

    /// Whether every frame counts at most its links, and a written count is waited for only
    /// with a frame under way.
    pub closed spec fn wf(&self) -> bool {
        &&& forall|i: int| 0 <= i < self.frames@.len() ==> (#[trigger] self.frames@[i]).next <= self.frames@[i].refs@.len()
        &&& (self.wait is Count ==> self.frames@.len() > 0 && self.frames@.last().next < self.frames@.last().refs@.len())
    }

    /// Starts collecting the block `cid`: with counting on, its file is read first; with
    /// counting off, nothing is removed and the run is over at once.
    pub fn new(enable_refcount: bool, cid: &[u8]) -> (r: (GcRun, GcAction))
        ensures
            r.0.wf(),
            r.0.spec_enable() == enable_refcount,
            r.0.spec_view().frames.len() == 0,
            r.0.spec_view().removed.len() == 0,
            enable_refcount ==> r.0.spec_view().wait == WaitView::Block(cid@) && action_is(r.1, ActionView::ReadBlock(cid@)),
            !enable_refcount ==> r.0.spec_view().wait == WaitView::Over && action_is(r.1, ActionView::Finish(Seq::empty())),
    {
        let run = GcRun {
            enable_refcount,
            frames: Vec::new(),
            removed: Vec::new(),
            wait: if enable_refcount { GcWait::Block(copy_bytes(cid)) } else { GcWait::Over },
        };
        proof {
            assert(run.frames@.map_values(|f: GcFrame| (f.refs.deep_view(), f.next as nat)) =~= Seq::empty());
            assert(run.removed.deep_view() =~= Seq::<Seq<u8>>::empty());
        }
        if enable_refcount {
            (run, GcAction::ReadBlock(copy_bytes(cid)))
        } else {
            (run, GcAction::Finish(Vec::new()))
        }
    }

    /// Leaves the frames whose links are all dropped and asks for the next link's count, or
    /// finishes.
    fn advance_run(&mut self) -> (a: GcAction)
        requires
            old(self).wf(),
        ensures
            final(self).wf(),
            final(self).spec_enable() == old(self).spec_enable(),
            final(self).spec_view() == advance(old(self).spec_view().frames, old(self).spec_view().removed).0,
            action_is(a, advance(old(self).spec_view().frames, old(self).spec_view().removed).1),
    {
        let ghost f0 = self.spec_view().frames;
        let ghost rm = self.spec_view().removed;
        loop
            invariant
                self.wf(),
                self.spec_enable() == old(self).spec_enable(),
                self.spec_view().removed == rm,
                f0 == old(self).spec_view().frames,
                rm == old(self).spec_view().removed,
                advance(self.spec_view().frames, rm) == advance(f0, rm),
            decreases self.frames@.len(),
        {
            let n = self.frames.len();
            proof {
                lemma_deep(self.removed);
            }
            if n == 0 {
                self.wait = GcWait::Over;
                let out = copy_list(&self.removed);
                proof {
                    assert(self.spec_view().frames =~= Seq::<(Seq<Seq<u8>>, nat)>::empty());
                }
                return GcAction::Finish(out);
            }
            let ghost fv = self.spec_view().frames;
            assert(fv.last() == (self.frames@[n - 1].refs.deep_view(), self.frames@[n - 1].next as nat));
            if self.frames[n - 1].next < self.frames[n - 1].refs.len() {
                proof {
                    lemma_deep(self.frames@[n - 1].refs);
                }
                let r = copy_bytes(self.frames[n - 1].refs[self.frames[n - 1].next].as_slice());
                let r2 = copy_bytes(r.as_slice());
                self.wait = GcWait::Count(r);
                return GcAction::ReadCount(r2);
            }
            self.frames.pop();
            proof {
                assert(self.spec_view().frames =~= fv.drop_last());
            }
        }
    }

    /// Takes the store's answer and gives the next action.
    pub fn step(&mut self, ev: GcEvent) -> (a: GcAction)
        requires
            old(self).wf(),
        ensures
            final(self).wf(),
            final(self).spec_enable() == old(self).spec_enable(),
            final(self).spec_view() == gc_step(old(self).spec_enable(), old(self).spec_view(), ev@).0,
            action_is(a, gc_step(old(self).spec_enable(), old(self).spec_view(), ev@).1),
    {
        match &self.wait {
            GcWait::Block(c0) => {
                let c = copy_bytes(c0.as_slice());
                match ev {
                    GcEvent::Block(count, data) => match gc_start(self.enable_refcount, count, c.as_slice(), data.as_slice()) {
                        Err(e) => {
                            self.wait = GcWait::Over;
                            Self::fail_unreadable(e, c)
                        },
                        Ok(GcStart::Keep) => {
                            self.wait = GcWait::Over;
                            self.advance_run()
                        },
                        Ok(GcStart::Remove) => {
                            let c2 = copy_bytes(c.as_slice());
                            let none: Vec<Vec<u8>> = Vec::new();
                            proof {
                                assert(none.deep_view() =~= Seq::<Seq<u8>>::empty());
                            }
                            self.wait = GcWait::Removal(c, none);
                            GcAction::RemoveBlock(c2)
                        },
                        Ok(GcStart::RemoveAndFollow(refs)) => {
                            let c2 = copy_bytes(c.as_slice());
                            self.wait = GcWait::Removal(c, refs);
                            GcAction::RemoveBlock(c2)
                        },
                    },
                    _ => GcAction::ReadBlock(c),
                }
            },
            GcWait::Removal(c0, refs0) => {
                let c = copy_bytes(c0.as_slice());
                match ev {
                    GcEvent::Done => {
                        let refs = copy_list(refs0);
                        self.wait = GcWait::Over;
                        let ghost rm0 = self.removed.deep_view();
                        let ghost fr0 = self.spec_view().frames;
                        proof {
                            lemma_deep(self.removed);
                        }
                        if !list_contains(&self.removed, c.as_slice()) {
                            self.removed.push(c);
                            proof {
                                lemma_deep(self.removed);
                                assert(self.removed.deep_view() =~= rm0.push(c@));
                            }
                        }
                        let ghost rv = refs.deep_view();
                        self.frames.push(GcFrame { refs, next: 0 });
                        proof {
                            assert(self.spec_view().frames =~= fr0.push((rv, 0nat)));
                        }
                        self.advance_run()
                    },
                    _ => GcAction::RemoveBlock(c),
                }
            },
            GcWait::Count(r0) => {
                let r = copy_bytes(r0.as_slice());
                match ev {
                    GcEvent::Count(count) => {
                        let ghost fr0 = self.spec_view().frames;
                        let mut f = self.frames.pop().unwrap();
                        assert(f.next < f.refs@.len());
                        if f.next < f.refs.len() {
                            f.next = f.next + 1;
                        }
                        let ghost fv = (f.refs.deep_view(), f.next as nat);
                        self.frames.push(f);
                        proof {
                            assert(self.spec_view().frames =~= fr0.update(fr0.len() - 1, fv));
                        }
                        let st = gc_ref_step(count);
                        match st.write {
                            Some(k) => {
                                let r2 = copy_bytes(r.as_slice());
                                self.wait = GcWait::Write(r, k, st.collect);
                                GcAction::WriteCount(r2, k)
                            },
                            None => {
                                self.wait = GcWait::Over;
                                self.advance_run()
                            },
                        }
                    },
                    _ => GcAction::ReadCount(r),
                }
            },
            GcWait::Write(r0, k, collect) => {
                let r = copy_bytes(r0.as_slice());
                let k = *k;
                let collect = *collect;
                match ev {
                    GcEvent::Done => if collect {
                        let r2 = copy_bytes(r.as_slice());
                        self.wait = GcWait::Block(r);
                        GcAction::ReadBlock(r2)
                    } else {
                        self.wait = GcWait::Over;
                        self.advance_run()
                    },
                    _ => GcAction::WriteCount(r, k),
                }
            },
            GcWait::Over => GcAction::Finish(copy_list(&self.removed)),
        }
    }

    /// The action that stops the run when the links of block `c` cannot be read.
    fn fail_unreadable(e: StoreError, c: Vec<u8>) -> (a: GcAction)
        requires
            e matches StoreError::UnreadableLinks(x) && x@ == c@,
        ensures
            action_is(a, ActionView::Unreadable(c@)),
    {
        GcAction::Fail(e)
    }
}

/// The deep view of a list of byte vectors holds the view of each.
proof fn lemma_deep(v: Vec<Vec<u8>>)
    ensures
        v.deep_view().len() == v@.len(),
        forall|k: int| 0 <= k < v@.len() ==> #[trigger] v.deep_view()[k] == v@[k]@,
{
    assert forall|k: int| 0 <= k < v@.len() implies #[trigger] v.deep_view()[k] == v@[k]@ by {
        assert(v.deep_view()[k] =~= v@[k]@);
    }
}

/// Whether the list holds the CID.
fn list_contains(v: &Vec<Vec<u8>>, c: &[u8]) -> (r: bool)
    ensures
        r == v.deep_view().contains(c@),
{
    proof {
        lemma_deep(*v);
    }
    let mut i: usize = 0;
    while i < v.len()
        invariant
            i <= v@.len(),
            v.deep_view().len() == v@.len(),
            forall|k: int| 0 <= k < v@.len() ==> #[trigger] v.deep_view()[k] == v@[k]@,
            forall|j: int| 0 <= j < i ==> v.deep_view()[j] != c@,
        decreases v.len() - i,
    {
        if bytes_eq(v[i].as_slice(), c) {
            assert(v.deep_view()[i as int] == c@);
            return true;
        }
        assert(v.deep_view()[i as int] != c@);
        i = i + 1;
    }
    false
}

/// Copies a list of CIDs.
fn copy_list(v: &Vec<Vec<u8>>) -> (r: Vec<Vec<u8>>)
    ensures
        r.deep_view() == v.deep_view(),
{
    let mut r: Vec<Vec<u8>> = Vec::new();
    let mut i: usize = 0;
    while i < v.len()
        invariant
            i <= v@.len(),
            r@.len() == i,
            forall|k: int| 0 <= k < i ==> #[trigger] r@[k]@ == v@[k]@,
        decreases v.len() - i,
    {
        r.push(copy_bytes(v[i].as_slice()));
        i = i + 1;
    }
    proof {
        lemma_deep(r);
        lemma_deep(*v);
        assert(r.deep_view() =~= v.deep_view());
    }
    r
}

/// Whether the answer is a block whose file held a count of zero.
pub open spec fn read_zero(ev: EventView) -> bool {
    match ev {
        EventView::Block(count, _) => count == Some(0u64),
        _ => false,
    }
}

/// A block is removed only when its file held a count of zero while counting is on: a run
/// asks to remove a block only right after the count of that very block was read as zero
/// (or again, while the removal it asked for is not yet reported done).
pub proof fn law_removed_only_without_references(enable: bool, s: GcRunView, ev: EventView)
    ensures
        gc_step(enable, s, ev).1 matches ActionView::RemoveBlock(c) ==> {
            ||| (s.wait == WaitView::Block(c) && enable && read_zero(ev))
            ||| (s.wait matches WaitView::Removal(c2, _) && c2 == c)
        },
{
    match s.wait {
        WaitView::Block(c) => {
            lemma_advance_never_removes(s.frames, s.removed);
        },
        WaitView::Removal(c, links) => {
            lemma_advance_never_removes(s.frames.push((links, 0)), if s.removed.contains(c) { s.removed } else { s.removed.push(c) });
        },
        WaitView::Count(r) => {
            let f = s.frames.last();
            lemma_advance_never_removes(s.frames.update(s.frames.len() - 1, (f.0, f.1 + 1)), s.removed);
        },
        WaitView::Write(r, n, collect) => {
            lemma_advance_never_removes(s.frames, s.removed);
        },
        WaitView::Over => {},
    }
}

/// Going on to the next link never asks to remove a block.
proof fn lemma_advance_never_removes(frames: Seq<(Seq<Seq<u8>>, nat)>, removed: Seq<Seq<u8>>)
    ensures
        !(advance(frames, removed).1 is RemoveBlock),
        advance(frames, removed).0.removed == removed,
    decreases frames.len(),
{
    if frames.len() > 0 && !(frames.last().1 < frames.last().0.len()) {
        lemma_advance_never_removes(frames.drop_last(), removed);
    }
}

/// A run lists each removed CID once: no step puts a CID on the list twice.
pub proof fn law_removed_listed_once(enable: bool, s: GcRunView, ev: EventView)
    requires
        s.removed.no_duplicates(),
    ensures
        gc_step(enable, s, ev).0.removed.no_duplicates(),
        s.removed.is_prefix_of(gc_step(enable, s, ev).0.removed),
{
    assert(s.removed.is_prefix_of(s.removed)) by {
        assert(s.removed =~= s.removed.subrange(0, s.removed.len() as int));
    }
    match s.wait {
        WaitView::Block(c) => {
            lemma_advance_never_removes(s.frames, s.removed);
        },
        WaitView::Removal(c, links) => {
            let r2 = if s.removed.contains(c) { s.removed } else { s.removed.push(c) };
            lemma_advance_never_removes(s.frames.push((links, 0)), r2);
            if !s.removed.contains(c) {
                assert(r2.no_duplicates()) by {
                    assert forall|i: int, j: int| 0 <= i < r2.len() && 0 <= j < r2.len() && i != j implies r2[i] != r2[j] by {
                        if i == s.removed.len() as int {
                            assert(!s.removed.contains(c));
                            assert(s.removed[j] == r2[j]);
                        } else if j == s.removed.len() as int {
                            assert(s.removed[i] == r2[i]);
                        }
                    }
                }
                assert(s.removed.is_prefix_of(r2)) by {
                    assert(s.removed =~= r2.subrange(0, s.removed.len() as int));
                }
            }
        },
        WaitView::Count(r) => {
            let f = s.frames.last();
            lemma_advance_never_removes(s.frames.update(s.frames.len() - 1, (f.0, f.1 + 1)), s.removed);
        },
        WaitView::Write(r, n, collect) => {
            lemma_advance_never_removes(s.frames, s.removed);
        },
        WaitView::Over => {},
    }
}

} // verus!
