//! Copying a directory tree, one decision at a time.
//!
//! A `TreeCopier` never touches the file system. It names the next operation
//! as an `Action`; the caller carries it out and reports how it went as an
//! `Event`; `step` then gives the operation after that. Directories are
//! walked depth first, each listing in the order in which it was reported.
//! The first failure ends the copy; nothing is undone.

use vstd::prelude::*;
use crate::error::{BackupError, ErrorView, Operation};
use crate::path::{copy_range, join, spec_join};

verus! {

/// Of what type a directory entry is, links not followed.
#[derive(Clone, Copy, Debug, PartialEq, Eq, Structural)]
pub enum EntryKind {
    /// A regular file: it is copied.
    File,
    /// A directory: it is copied in turn.
    Directory,
    /// Anything else (a link, a socket, a device): it is passed over.
    Other,
    /// The entry could not be read; its name is not known.
    Unreadable,
    /// The type of the entry could not be determined.
    Untyped,
}

/// One item of a directory listing, as the caller read it.
#[derive(Debug, PartialEq, Eq)]
pub struct DirItem {
    /// The name of the entry within its directory.
    pub name: Vec<u8>,
    pub kind: EntryKind,
}

/// A `DirItem` as a mathematical value.
pub struct ItemView {
    pub name: Seq<u8>,
    pub kind: EntryKind,
}

impl View for DirItem {
    type V = ItemView;

    open spec fn view(&self) -> ItemView {
        ItemView { name: self.name@, kind: self.kind }
    }
}

/// The items of a listing as mathematical values.
pub open spec fn items_view(items: Seq<DirItem>) -> Seq<ItemView> {
    Seq::new(items.len(), |i: int| items[i]@)
}

/// How the operation that was asked for went.
#[derive(Debug, PartialEq, Eq)]
pub enum Event {
    /// It succeeded, and was not the listing of a directory.
    Done,
    /// The directory was listed; these are its items, in the order reported,
    /// up to and including the first that could not be read or typed.
    Listed(Vec<DirItem>),
    /// It failed.
    Failed,
}

/// An `Event` as a mathematical value.
pub enum EventView {
    Done,
    Listed(Seq<ItemView>),
    Failed,
}

impl View for Event {
    type V = EventView;

    open spec fn view(&self) -> EventView {
        match self {
            Event::Done => EventView::Done,
            Event::Listed(items) => EventView::Listed(items_view(items@)),
            Event::Failed => EventView::Failed,
        }
    }
}

/// What the caller is to do next.
#[derive(Debug, PartialEq, Eq)]
pub enum Action {
    /// Create the directory `path` with all its missing ancestors; it is no
    /// failure if the directory exists.
    CreateDirAll { path: Vec<u8> },
    /// List the directory `path`.
    ReadDir { path: Vec<u8> },
    /// Copy the contents of the file `from` to `to`, replacing what is there.
    CopyFile { from: Vec<u8>, to: Vec<u8> },
    /// Nothing: the tree has been copied.
    Finished,
    /// Nothing: the copy has failed.
    Failed(BackupError),
}

/// An `Action` as a mathematical value.
pub enum ActionView {
    CreateDirAll { path: Seq<u8> },
    ReadDir { path: Seq<u8> },
    CopyFile { from: Seq<u8>, to: Seq<u8> },
    Finished,
    Failed(ErrorView),
}

impl View for Action {
    type V = ActionView;

    open spec fn view(&self) -> ActionView {
        match self {
            Action::CreateDirAll { path } => ActionView::CreateDirAll { path: path@ },
            Action::ReadDir { path } => ActionView::ReadDir { path: path@ },
            Action::CopyFile { from, to } => ActionView::CopyFile { from: from@, to: to@ },
            Action::Finished => ActionView::Finished,
            Action::Failed(error) => ActionView::Failed(error@),
        }
    }
}

/// A directory that has been listed and is being worked through.
struct Frame {
    src: Vec<u8>,
    dst: Vec<u8>,
    items: Vec<DirItem>,
    /// How many of `items` have been dealt with.
    next: usize,
}

/// A directory being worked through, as a mathematical value.
pub struct FrameView {
    /// The directory that is read.
    pub src: Seq<u8>,
    /// The directory that is filled.
    pub dst: Seq<u8>,
    pub items: Seq<ItemView>,
    /// How many of `items` have been dealt with.
    pub next: int,
}

impl View for Frame {
    type V = FrameView;

    closed spec fn view(&self) -> FrameView {
        FrameView {
            src: self.src@,
            dst: self.dst@,
            items: items_view(self.items@),
            next: self.next as int,
        }
    }
}

/// What a copier has asked for and waits to hear of.
enum Waiting {
    Create { src: Vec<u8>, dst: Vec<u8> },
    Read { src: Vec<u8>, dst: Vec<u8> },
    Copy { from: Vec<u8> },
    Stopped(Option<BackupError>),
}

/// What a copier waits to hear of, as a mathematical value.
pub enum WaitingView {
    /// The creation of `dst`, into which `src` is to be copied.
    Create { src: Seq<u8>, dst: Seq<u8> },
    /// The listing of `src`, which is to be copied into `dst`.
    Read { src: Seq<u8>, dst: Seq<u8> },
    /// The copy of the file `from`.
    Copy { from: Seq<u8> },
    /// Nothing: the copy has ended, with this error if it failed.
    Stopped(Option<ErrorView>),
}

impl View for Waiting {
    type V = WaitingView;

    closed spec fn view(&self) -> WaitingView {
        match self {
            Waiting::Create { src, dst } => WaitingView::Create { src: src@, dst: dst@ },
            Waiting::Read { src, dst } => WaitingView::Read { src: src@, dst: dst@ },
            Waiting::Copy { from } => WaitingView::Copy { from: from@ },
            Waiting::Stopped(None) => WaitingView::Stopped(None),
            Waiting::Stopped(Some(error)) => WaitingView::Stopped(Some(error@)),
        }
    }
}

/// The state of a tree copy between two operations.
pub struct TreeCopier {
    /// The directories being worked through, the innermost last.
    frames: Vec<Frame>,
    waiting: Waiting,
}

/// A `TreeCopier` as a mathematical value.
pub struct CopierView {
    /// The directories being worked through, the innermost last.
    pub frames: Seq<FrameView>,
    pub waiting: WaitingView,
}

spec fn frames_view(frames: Seq<Frame>) -> Seq<FrameView> {
    Seq::new(frames.len(), |i: int| frames[i]@)
}

impl View for TreeCopier {
    type V = CopierView;

    closed spec fn view(&self) -> CopierView {
        CopierView { frames: frames_view(self.frames@), waiting: self.waiting@ }
    }
}

/// The copier that has stopped with `outcome`, and the action that says so.
pub open spec fn stopped(frames: Seq<FrameView>, outcome: Option<ErrorView>) -> (
    CopierView,
    ActionView,
) {
    (
        CopierView { frames, waiting: WaitingView::Stopped(outcome) },
        match outcome {
            None => ActionView::Finished,
            Some(error) => ActionView::Failed(error),
        },
    )
}

/// The copier that has failed in `operation` at `path`.
pub open spec fn failed(frames: Seq<FrameView>, operation: Operation, path: Seq<u8>) -> (
    CopierView,
    ActionView,
) {
    stopped(frames, Some(ErrorView::Io { operation, path }))
}

/// How many items of the innermost directory are left.
pub open spec fn items_left(frames: Seq<FrameView>) -> int {
    if frames.len() > 0 && 0 <= frames.last().next < frames.last().items.len() {
        frames.last().items.len() - frames.last().next
    } else {
        0
    }
}

/// What a copier does once nothing is outstanding: it takes the next item of
/// the innermost directory that has one left. A file is copied, a directory
/// entered, an item that could not be read or typed ends the copy, anything
/// else is passed over. With no item left anywhere, the copy is finished.
pub open spec fn spec_advance(frames: Seq<FrameView>) -> (CopierView, ActionView)
    decreases frames.len(), items_left(frames),
{
    if frames.len() == 0 {
        stopped(frames, None)
    } else {
        let top = frames.last();
        if !(0 <= top.next < top.items.len()) {
            spec_advance(frames.drop_last())
        } else {
            let item = top.items[top.next];
            let moved = frames.drop_last().push(FrameView { next: top.next + 1, ..top });
            let from = spec_join(top.src, item.name);
            let to = spec_join(top.dst, item.name);
            match item.kind {
                EntryKind::File => (
                    CopierView { frames: moved, waiting: WaitingView::Copy { from } },
                    ActionView::CopyFile { from, to },
                ),
                EntryKind::Directory => (
                    CopierView { frames: moved, waiting: WaitingView::Create { src: from, dst: to } },
                    ActionView::CreateDirAll { path: to },
                ),
                EntryKind::Other => spec_advance(moved),
                EntryKind::Unreadable => failed(moved, Operation::ReadEntry, top.src),
                EntryKind::Untyped => failed(moved, Operation::FileType, from),
            }
        }
    }
}

/// The copier that is about to copy the directory `src` into `dst`, and its
/// first action: to create `dst`.
pub open spec fn spec_start(src: Seq<u8>, dst: Seq<u8>) -> (CopierView, ActionView) {
    (
        CopierView { frames: Seq::empty(), waiting: WaitingView::Create { src, dst } },
        ActionView::CreateDirAll { path: dst },
    )
}

/// The copier that copies the single file `from` to `to`, and its first and
/// only action.
pub open spec fn spec_copy_file(from: Seq<u8>, to: Seq<u8>) -> (CopierView, ActionView) {
    (
        CopierView { frames: Seq::empty(), waiting: WaitingView::Copy { from } },
        ActionView::CopyFile { from, to },
    )
}

/// The state after `event`, and the action to take in it.
///
/// Any event but the success of what was asked for counts as its failure. A
/// copier that has stopped stays as it is and repeats its last word.
pub open spec fn spec_step(state: CopierView, event: EventView) -> (CopierView, ActionView) {
    match state.waiting {
        WaitingView::Create { src, dst } => match event {
            EventView::Done => (
                CopierView { frames: state.frames, waiting: WaitingView::Read { src, dst } },
                ActionView::ReadDir { path: src },
            ),
            _ => failed(state.frames, Operation::CreateDir, dst),
        },
        WaitingView::Read { src, dst } => match event {
            EventView::Listed(items) => spec_advance(
                state.frames.push(FrameView { src, dst, items, next: 0 }),
            ),
            _ => failed(state.frames, Operation::ReadDir, src),
        },
        WaitingView::Copy { from } => match event {
            EventView::Done => spec_advance(state.frames),
            _ => failed(state.frames, Operation::Copy, from),
        },
        WaitingView::Stopped(outcome) => stopped(state.frames, outcome),
    }
}

/// A copy of `path`.
fn copy_of(path: &Vec<u8>) -> (r: Vec<u8>)
    ensures
        r@ == path@,
{
    let r = copy_range(path.as_slice(), 0, path.len());
    assert(path@.subrange(0, path@.len() as int) =~= path@);
    r
}

/// Begins the copy of the directory `src` into the directory `dst`.
///
/// Gives the copier and its first action, which is to create `dst`. The
/// caller carries each action out, reports to `step` how it went, and goes on
/// until the action is `Finished` or `Failed`.
pub fn backup_directory(src: &[u8], dst: &[u8]) -> (r: (TreeCopier, Action))
    ensures
        (r.0@, r.1@) == spec_start(src@, dst@),
{
    let from = copy_range(src, 0, src.len());
    let to = copy_range(dst, 0, dst.len());
    let path = copy_range(dst, 0, dst.len());
    assert(src@.subrange(0, src@.len() as int) =~= src@);
    assert(dst@.subrange(0, dst@.len() as int) =~= dst@);
    let frames: Vec<Frame> = Vec::new();
    assert(frames_view(frames@) =~= Seq::<FrameView>::empty());
    (TreeCopier { frames, waiting: Waiting::Create { src: from, dst: to } }, Action::CreateDirAll { path })
}

/// Begins the copy of the single file `from` to `to`.
///
/// Gives the copier and its first action, which is that copy; once it has
/// succeeded the copier has finished.
pub fn backup_file(from: &[u8], to: &[u8]) -> (r: (TreeCopier, Action))
    ensures
        (r.0@, r.1@) == spec_copy_file(from@, to@),
{
    let source = copy_range(from, 0, from.len());
    let origin = copy_range(from, 0, from.len());
    let target = copy_range(to, 0, to.len());
    assert(from@.subrange(0, from@.len() as int) =~= from@);
    assert(to@.subrange(0, to@.len() as int) =~= to@);
    let frames: Vec<Frame> = Vec::new();
    assert(frames_view(frames@) =~= Seq::<FrameView>::empty());
    (
        TreeCopier { frames, waiting: Waiting::Copy { from: source } },
        Action::CopyFile { from: origin, to: target },
    )
}

impl TreeCopier {
    /// Whether the copy has ended, in success or in failure.
    pub fn is_stopped(&self) -> (r: bool)
        ensures
            r == (self@.waiting is Stopped),
    {
        match &self.waiting {
            Waiting::Stopped(_) => true,
            _ => false,
        }
    }

    /// Takes in how the last action went and gives the state after it together
    /// with the next action.
    pub fn step(self, event: Event) -> (r: (TreeCopier, Action))
        ensures
            (r.0@, r.1@) == spec_step(self@, event@),
    {
        let TreeCopier { frames, waiting } = self;
        match waiting {
            Waiting::Create { src, dst } => match event {
                Event::Done => {
                    let path = copy_of(&src);
                    (
                        TreeCopier { frames, waiting: Waiting::Read { src, dst } },
                        Action::ReadDir { path },
                    )
                },
                _ => Self::fail(frames, Operation::CreateDir, dst),
            },
            Waiting::Read { src, dst } => match event {
                Event::Listed(items) => {
                    let mut frames = frames;
                    let ghost before = frames_view(frames@);
                    frames.push(Frame { src, dst, items, next: 0 });
                    assert(frames_view(frames@) =~= before.push(
                        FrameView { src: src@, dst: dst@, items: items_view(items@), next: 0 },
                    ));
                    Self::advance(frames)
                },
                _ => Self::fail(frames, Operation::ReadDir, src),
            },
            Waiting::Copy { from } => match event {
                Event::Done => Self::advance(frames),
                _ => Self::fail(frames, Operation::Copy, from),
            },
            Waiting::Stopped(None) => (
                TreeCopier { frames, waiting: Waiting::Stopped(None) },
                Action::Finished,
            ),
            Waiting::Stopped(Some(error)) => {
                let again = error.duplicate();
                (
                    TreeCopier { frames, waiting: Waiting::Stopped(Some(error)) },
                    Action::Failed(again),
                )
            },
        }
    }

    fn fail(frames: Vec<Frame>, operation: Operation, path: Vec<u8>) -> (r: (TreeCopier, Action))
        ensures
            (r.0@, r.1@) == failed(frames_view(frames@), operation, path@),
    {
        let error = BackupError::Io { operation, path };
        let again = error.duplicate();
        (TreeCopier { frames, waiting: Waiting::Stopped(Some(error)) }, Action::Failed(again))
    }

    fn advance(stack: Vec<Frame>) -> (r: (TreeCopier, Action))
        ensures
            (r.0@, r.1@) == spec_advance(frames_view(stack@)),
    {
        let mut frames = stack;
        loop
            invariant
                spec_advance(frames_view(frames@)) == spec_advance(frames_view(stack@)),
            decreases frames@.len(), items_left(frames_view(frames@)),
        {
            let ghost all = frames_view(frames@);
            let top = match frames.pop() {
                Some(top) => top,
                None => {
                    return (
                        TreeCopier { frames, waiting: Waiting::Stopped(None) },
                        Action::Finished,
                    );
                },
            };
            assert(frames_view(frames@) =~= all.drop_last());
            assert(all.last() == top@);
            if top.next >= top.items.len() {
                continue ;
            }
            let kind = top.items[top.next].kind;
            let from = join(top.src.as_slice(), top.items[top.next].name.as_slice());
            let to = join(top.dst.as_slice(), top.items[top.next].name.as_slice());
            let dir = copy_of(&top.src);
            let moved = Frame { src: top.src, dst: top.dst, items: top.items, next: top.next + 1 };
            frames.push(moved);
            assert(frames_view(frames@) =~= all.drop_last().push(
                FrameView { next: top@.next + 1, ..top@ },
            ));
            match kind {
                EntryKind::File => {
                    let source = copy_of(&from);
                    return (
                        TreeCopier { frames, waiting: Waiting::Copy { from: source } },
                        Action::CopyFile { from, to },
                    );
                },
                EntryKind::Directory => {
                    let path = copy_of(&to);
                    return (
                        TreeCopier { frames, waiting: Waiting::Create { src: from, dst: to } },
                        Action::CreateDirAll { path },
                    );
                },
                EntryKind::Other => {},
                EntryKind::Unreadable => {
                    return Self::fail(frames, Operation::ReadEntry, dir);
                },
                EntryKind::Untyped => {
                    return Self::fail(frames, Operation::FileType, from);
                },
            }
        }
    }
}

/// Whether `waiting` is what a copier waits to hear of once it has asked
/// for `action`.
pub open spec fn waits_for(waiting: WaitingView, action: ActionView) -> bool {
    match action {
        ActionView::CreateDirAll { path } => waiting matches WaitingView::Create { dst, .. }
            && dst == path,
        ActionView::ReadDir { path } => waiting matches WaitingView::Read { src, .. } && src
            == path,
        ActionView::CopyFile { from, to } => waiting == (WaitingView::Copy { from }),
        ActionView::Finished => waiting == WaitingView::Stopped(None),
        ActionView::Failed(error) => waiting == WaitingView::Stopped(Some(error)),
    }
}

/// The operation that `action` asks for and the path at which a failure of
/// it is reported, if `action` asks for anything.
pub open spec fn asked(action: ActionView) -> Option<(Operation, Seq<u8>)> {
    match action {
        ActionView::CreateDirAll { path } => Some((Operation::CreateDir, path)),
        ActionView::ReadDir { path } => Some((Operation::ReadDir, path)),
        ActionView::CopyFile { from, to } => Some((Operation::Copy, from)),
        ActionView::Finished => None,
        ActionView::Failed(_) => None,
    }
}

/// A copier with nothing outstanding waits to hear of what it asks for next.
pub proof fn lemma_advance_waits(frames: Seq<FrameView>)
    ensures
        waits_for(spec_advance(frames).0.waiting, spec_advance(frames).1),
    decreases frames.len(), items_left(frames),
{
    if frames.len() > 0 {
        let top = frames.last();
        if !(0 <= top.next < top.items.len()) {
            lemma_advance_waits(frames.drop_last());
        } else if top.items[top.next].kind == EntryKind::Other {
            lemma_advance_waits(frames.drop_last().push(FrameView { next: top.next + 1, ..top }));
        }
    }
}

/// A copier always waits to hear of what it has just asked for, and has
/// stopped exactly when it asks for nothing more.
pub proof fn lemma_waits_for_what_it_asked(
    src: Seq<u8>,
    dst: Seq<u8>,
    state: CopierView,
    event: EventView,
)
    ensures
        waits_for(spec_start(src, dst).0.waiting, spec_start(src, dst).1),
        waits_for(spec_copy_file(src, dst).0.waiting, spec_copy_file(src, dst).1),
        !(state.waiting is Stopped) ==> waits_for(
            spec_step(state, event).0.waiting,
            spec_step(state, event).1,
        ),
        spec_step(state, event).0.waiting is Stopped <==> asked(spec_step(state, event).1) is None,
{
    match state.waiting {
        WaitingView::Read { src, dst } => match event {
            EventView::Listed(items) => {
                lemma_advance_waits(state.frames.push(FrameView { src, dst, items, next: 0 }));
            },
            _ => {},
        },
        WaitingView::Copy { from } => {
            lemma_advance_waits(state.frames);
        },
        _ => {},
    }
}

/// The first failure ends the copy: a copier that hears that what it asked
/// for has failed stops at once, and names that operation and its path.
pub proof fn lemma_failure_stops(state: CopierView, action: ActionView)
    requires
        waits_for(state.waiting, action),
        asked(action) is Some,
    ensures
        ({
            let (operation, path) = asked(action)->0;
            spec_step(state, EventView::Failed) == failed(state.frames, operation, path)
        }),
        spec_step(state, EventView::Failed).0.waiting is Stopped,
        spec_step(state, EventView::Failed).1 is Failed,
{
}

/// A copier that has stopped stays as it is, whatever it hears, and goes on
/// saying how it ended.
pub proof fn lemma_stopped_stays(state: CopierView, event: EventView)
    requires
        state.waiting is Stopped,
    ensures
        spec_step(state, event).0 == state,
        waits_for(state.waiting, spec_step(state, event).1),
{
}

} // verus!
