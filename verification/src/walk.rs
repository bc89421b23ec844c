//! What a copier does to a whole tree.
//!
//! A tree is modelled as a mathematical value. Against a file system that
//! holds such a tree and never fails, the exchange between a copier and its
//! caller is fixed in advance: this module writes it down by recursion over
//! the tree, and proves that the copier keeps to it.

use vstd::prelude::*;
use crate::path::spec_join;
use crate::error::ErrorView;
use crate::tree::{
    asked, lemma_failure_stops, lemma_stopped_stays, lemma_waits_for_what_it_asked, spec_advance,
    spec_start, spec_step, stopped, waits_for, ActionView, CopierView, EntryKind, EventView,
    FrameView, ItemView, WaitingView,
};

verus! {

/// What stands at one place of a tree.
pub enum Node {
    /// A regular file.
    File,
    /// Something that is neither a file nor a directory.
    Other,
    /// A directory with its entries, in the order in which it lists them.
    Dir(Seq<Child>),
}

/// An entry of a directory.
pub struct Child {
    pub name: Seq<u8>,
    pub node: Node,
}

/// The type under which a directory lists what stands at `node`.
pub open spec fn kind_of(node: Node) -> EntryKind {
    match node {
        Node::File => EntryKind::File,
        Node::Other => EntryKind::Other,
        Node::Dir(_) => EntryKind::Directory,
    }
}

/// The listing of a directory that holds `children`.
pub open spec fn listing(children: Seq<Child>) -> Seq<ItemView> {
    Seq::new(
        children.len(),
        |i: int| ItemView { name: children[i].name, kind: kind_of(children[i].node) },
    )
}

/// An action together with the event that answers it.
pub struct Exchange {
    pub action: ActionView,
    pub reply: EventView,
}

/// The exchanges by which the entries `from..` of a directory are copied,
/// when that directory is `src`, holds `children`, and is copied into `dst`.
/// Each file is copied under its own name; each directory is created,
/// listed, and copied in the same way before the next entry is looked at;
/// nothing is asked about anything else. Every action succeeds.
pub open spec fn copy_entries(children: Seq<Child>, src: Seq<u8>, dst: Seq<u8>, from: int) -> Seq<
    Exchange,
>
    decreases children, children.len() - from,
{
    if 0 <= from < children.len() {
        let child = children[from];
        let source = spec_join(src, child.name);
        let target = spec_join(dst, child.name);
        let rest = copy_entries(children, src, dst, from + 1);
        match child.node {
            Node::File => seq![
                Exchange {
                    action: ActionView::CopyFile { from: source, to: target },
                    reply: EventView::Done,
                },
            ] + rest,
            Node::Other => rest,
            Node::Dir(inner) => enter(inner, source, target) + copy_entries(
                inner,
                source,
                target,
                0,
            ) + rest,
        }
    } else {
        Seq::empty()
    }
}

/// The two exchanges that precede the copying of a directory's entries: its
/// counterpart is created, and it is listed.
pub open spec fn enter(children: Seq<Child>, src: Seq<u8>, dst: Seq<u8>) -> Seq<Exchange> {
    seq![
        Exchange { action: ActionView::CreateDirAll { path: dst }, reply: EventView::Done },
        Exchange {
            action: ActionView::ReadDir { path: src },
            reply: EventView::Listed(listing(children)),
        },
    ]
}

/// The exchanges by which the directory `src`, which holds `children`, is
/// copied into `dst`.
pub open spec fn copy_tree(children: Seq<Child>, src: Seq<u8>, dst: Seq<u8>) -> Seq<Exchange> {
    enter(children, src, dst) + copy_entries(children, src, dst, 0)
}

/// The actions of `exchanges`, in order.
pub open spec fn actions(exchanges: Seq<Exchange>) -> Seq<ActionView> {
    Seq::new(exchanges.len(), |i: int| exchanges[i].action)
}

/// The replies of `exchanges`, in order.
pub open spec fn replies(exchanges: Seq<Exchange>) -> Seq<EventView> {
    Seq::new(exchanges.len(), |i: int| exchanges[i].reply)
}

/// The state in which `events`, taken in one after the other, leave a copier,
/// and the actions with which it answers them.
pub open spec fn feed(state: CopierView, events: Seq<EventView>) -> (CopierView, Seq<ActionView>)
    decreases events.len(),
{
    if events.len() == 0 {
        (state, Seq::empty())
    } else {
        let (next, action) = spec_step(state, events[0]);
        let (last, more) = feed(next, events.drop_first());
        (last, seq![action] + more)
    }
}

/// Feeding one run of events after another is feeding them all.
pub proof fn lemma_feed_concat(state: CopierView, first: Seq<EventView>, second: Seq<EventView>)
    ensures
        feed(state, first + second) == ({
            let (middle, early) = feed(state, first);
            let (last, late) = feed(middle, second);
            (last, early + late)
        }),
    decreases first.len(),
{
    if first.len() == 0 {
        assert(first + second =~= second);
        assert(Seq::<ActionView>::empty() + feed(state, second).1 =~= feed(state, second).1);
    } else {
        let (next, action) = spec_step(state, first[0]);
        assert((first + second)[0] == first[0]);
        assert((first + second).drop_first() =~= first.drop_first() + second);
        lemma_feed_concat(next, first.drop_first(), second);
        let (middle, early) = feed(next, first.drop_first());
        let (last, late) = feed(middle, second);
        assert(seq![action] + (early + late) =~= (seq![action] + early) + late);
    }
}

/// The frame of a directory of which the first `next` entries are dealt with.
pub open spec fn frame_at(children: Seq<Child>, src: Seq<u8>, dst: Seq<u8>, next: int) -> FrameView {
    FrameView { src, dst, items: listing(children), next }
}

/// A copier that goes on in a directory from its entry `from`, and is
/// answered as the tree has it, asks for what the copying of those entries
/// takes, and then goes on as if that directory had not been there.
pub proof fn lemma_copies_entries(
    below: Seq<FrameView>,
    children: Seq<Child>,
    src: Seq<u8>,
    dst: Seq<u8>,
    from: int,
)
    requires
        0 <= from <= children.len(),
    ensures
        ({
            let exchanges = copy_entries(children, src, dst, from);
            let (state, action) = spec_advance(below.push(frame_at(children, src, dst, from)));
            let (last, more) = feed(state, replies(exchanges));
            &&& last == spec_advance(below).0
            &&& seq![action] + more == actions(exchanges).push(spec_advance(below).1)
        }),
    decreases children, children.len() - from,
{
    let frames = below.push(frame_at(children, src, dst, from));
    let exchanges = copy_entries(children, src, dst, from);
    let (state, action) = spec_advance(frames);
    let (last, more) = feed(state, replies(exchanges));
    let end = spec_advance(below);
    assert(frames.drop_last() =~= below);
    if from == children.len() {
        assert(replies(exchanges) =~= Seq::empty());
        assert(seq![action] + more =~= actions(exchanges).push(end.1));
    } else {
        let child = children[from];
        let source = spec_join(src, child.name);
        let target = spec_join(dst, child.name);
        let rest = copy_entries(children, src, dst, from + 1);
        let moved = below.push(frame_at(children, src, dst, from + 1));
        assert(frames.drop_last().push(FrameView { next: from + 1, ..frames.last() }) =~= moved);
        assert(frames.last().items[from].kind == kind_of(child.node));
        lemma_copies_entries(below, children, src, dst, from + 1);
        let (state1, action1) = spec_advance(moved);
        let (last1, more1) = feed(state1, replies(rest));
        match child.node {
            Node::File => {
                let events = replies(exchanges);
                assert(events[0] == EventView::Done);
                assert(events.drop_first() =~= replies(rest));
                assert(spec_step(state, events[0]) == (state1, action1));
                assert(seq![action] + more =~= actions(exchanges).push(end.1)) by {
                    assert(more == seq![action1] + more1);
                    assert(actions(exchanges) =~= seq![action] + actions(rest));
                }
            },
            Node::Other => {},
            Node::Dir(inner) => {
                let head = enter(inner, source, target);
                let body = copy_entries(inner, source, target, 0);
                lemma_copies_entries(moved, inner, source, target, 0);
                let deeper = moved.push(frame_at(inner, source, target, 0));
                let (state2, action2) = spec_advance(deeper);
                let (last2, more2) = feed(state2, replies(body));
                assert(last2 == state1);
                assert(seq![action2] + more2 == actions(body).push(action1));
                // The two exchanges by which the directory is entered.
                let listed = CopierView {
                    frames: moved,
                    waiting: WaitingView::Read { src: source, dst: target },
                };
                assert(spec_step(state, EventView::Done) == (
                    listed,
                    ActionView::ReadDir { path: source },
                ));
                assert(spec_step(listed, EventView::Listed(listing(inner))) == (state2, action2));
                let events = replies(exchanges);
                assert(events =~= replies(head) + (replies(body) + replies(rest)));
                assert(replies(head) =~= seq![EventView::Done, EventView::Listed(listing(inner))]);
                assert(feed(state, replies(head)) == (
                    state2,
                    seq![ActionView::ReadDir { path: source }, action2],
                )) by {
                    let two = replies(head);
                    assert(two.drop_first() =~= seq![EventView::Listed(listing(inner))]);
                    assert(two.drop_first().drop_first() =~= Seq::<EventView>::empty());
                    assert(feed(listed, two.drop_first()) == (state2, seq![action2])) by {
                        assert(feed(state2, two.drop_first().drop_first()) == (
                            state2,
                            Seq::<ActionView>::empty(),
                        ));
                        assert(seq![action2] + Seq::<ActionView>::empty() =~= seq![action2]);
                    }
                    assert(seq![ActionView::ReadDir { path: source }] + seq![action2] =~= seq![
                        ActionView::ReadDir { path: source },
                        action2,
                    ]);
                }
                lemma_feed_concat(state, replies(head), replies(body) + replies(rest));
                lemma_feed_concat(state2, replies(body), replies(rest));
                assert(last == last1);
                assert(more =~= seq![ActionView::ReadDir { path: source }, action2] + (more2
                    + more1));
                assert(actions(exchanges) =~= actions(head) + (actions(body) + actions(rest)));
                assert(actions(head) =~= seq![
                    ActionView::CreateDirAll { path: target },
                    ActionView::ReadDir { path: source },
                ]);
                assert(seq![action] + more =~= actions(exchanges).push(end.1)) by {
                    let a = actions(body);
                    let b = actions(rest);
                    assert(seq![action2] + more2 == a.push(action1));
                    assert(seq![action1] + more1 == b.push(end.1));
                    assert((seq![action2] + more2) + more1 =~= a + (seq![action1] + more1));
                }
            },
        }
    }
}

/// A copier that is answered as the tree has it copies the whole tree: from
/// its start it asks for exactly the actions of `copy_tree`, in order, and
/// then says that it has finished.
pub proof fn lemma_copies_tree(children: Seq<Child>, src: Seq<u8>, dst: Seq<u8>)
    ensures
        ({
            let exchanges = copy_tree(children, src, dst);
            let (start, first) = spec_start(src, dst);
            let (last, more) = feed(start, replies(exchanges));
            &&& last == stopped(Seq::empty(), None).0
            &&& seq![first] + more == actions(exchanges).push(ActionView::Finished)
        }),
{
    let exchanges = copy_tree(children, src, dst);
    let head = enter(children, src, dst);
    let body = copy_entries(children, src, dst, 0);
    let (start, first) = spec_start(src, dst);
    let below = Seq::<FrameView>::empty();
    lemma_copies_entries(below, children, src, dst, 0);
    let (state2, action2) = spec_advance(below.push(frame_at(children, src, dst, 0)));
    let (last2, more2) = feed(state2, replies(body));
    let listed = CopierView { frames: below, waiting: WaitingView::Read { src, dst } };
    assert(spec_step(start, EventView::Done) == (listed, ActionView::ReadDir { path: src }));
    assert(spec_step(listed, EventView::Listed(listing(children))) == (state2, action2));
    assert(replies(exchanges) =~= replies(head) + replies(body));
    assert(replies(head) =~= seq![EventView::Done, EventView::Listed(listing(children))]);
    assert(feed(start, replies(head)) == (state2, seq![ActionView::ReadDir { path: src }, action2]))
        by {
        let two = replies(head);
        assert(two.drop_first() =~= seq![EventView::Listed(listing(children))]);
        assert(two.drop_first().drop_first() =~= Seq::<EventView>::empty());
        assert(feed(listed, two.drop_first()) == (state2, seq![action2])) by {
            assert(feed(state2, two.drop_first().drop_first()) == (
                state2,
                Seq::<ActionView>::empty(),
            ));
            assert(seq![action2] + Seq::<ActionView>::empty() =~= seq![action2]);
        }
        assert(seq![ActionView::ReadDir { path: src }] + seq![action2] =~= seq![
            ActionView::ReadDir { path: src },
            action2,
        ]);
    }
    lemma_feed_concat(start, replies(head), replies(body));
    assert(actions(exchanges) =~= actions(head) + actions(body));
    assert(actions(head) =~= seq![
        ActionView::CreateDirAll { path: dst },
        ActionView::ReadDir { path: src },
    ]);
    let (last, more) = feed(start, replies(exchanges));
    assert(seq![first] + more =~= actions(exchanges).push(ActionView::Finished));
}

/// A copier answers each event with one action.
pub proof fn lemma_feed_len(state: CopierView, events: Seq<EventView>)
    ensures
        feed(state, events).1.len() == events.len(),
    decreases events.len(),
{
    if events.len() > 0 {
        lemma_feed_len(spec_step(state, events[0]).0, events.drop_first());
    }
}

/// However many events a copier takes in, it then waits to hear of what it
/// asked for last.
pub proof fn lemma_feed_waits(state: CopierView, action: ActionView, events: Seq<EventView>)
    requires
        waits_for(state.waiting, action),
    ensures
        waits_for(feed(state, events).0.waiting, (seq![action] + feed(state, events).1).last()),
    decreases events.len(),
{
    let (last, more) = feed(state, events);
    if events.len() == 0 {
        assert(seq![action] + more =~= seq![action]);
    } else {
        let (next, then) = spec_step(state, events[0]);
        lemma_waits_for_what_it_asked(Seq::empty(), Seq::empty(), state, events[0]);
        if state.waiting is Stopped {
            lemma_stopped_stays(state, events[0]);
        }
        lemma_feed_waits(next, then, events.drop_first());
        let rest = feed(next, events.drop_first()).1;
        lemma_feed_len(next, events.drop_first());
        assert((seq![action] + more).last() == (seq![then] + rest).last());
    }
}

/// Every exchange by which the entries of a directory are copied asks for
/// something.
pub proof fn lemma_entries_ask(children: Seq<Child>, src: Seq<u8>, dst: Seq<u8>, from: int)
    requires
        0 <= from <= children.len(),
    ensures
        forall|i: int|
            0 <= i < copy_entries(children, src, dst, from).len() ==> asked(
                #[trigger] copy_entries(children, src, dst, from)[i].action,
            ) is Some,
    decreases children, children.len() - from,
{
    if from < children.len() {
        let child = children[from];
        let source = spec_join(src, child.name);
        let target = spec_join(dst, child.name);
        lemma_entries_ask(children, src, dst, from + 1);
        match child.node {
            Node::Dir(inner) => {
                lemma_entries_ask(inner, source, target, 0);
            },
            _ => {},
        }
    }
}

/// The first failure ends the copy at once. A copier that is answered as the
/// tree has it until one of its actions fails has asked, up to then, for
/// exactly the actions of `copy_tree` up to that one; it then stops, and
/// reports the operation that failed and its path.
pub proof fn lemma_first_failure_ends_copy(
    children: Seq<Child>,
    src: Seq<u8>,
    dst: Seq<u8>,
    at: int,
)
    requires
        0 <= at < copy_tree(children, src, dst).len(),
    ensures
        ({
            let exchanges = copy_tree(children, src, dst);
            let (start, first) = spec_start(src, dst);
            let (state, so_far) = feed(start, replies(exchanges).take(at));
            let (end, word) = spec_step(state, EventView::Failed);
            let (operation, path) = asked(exchanges[at].action)->0;
            &&& seq![first] + so_far == actions(exchanges).take(at + 1)
            &&& asked(exchanges[at].action) is Some
            &&& end.waiting is Stopped
            &&& word == ActionView::Failed(ErrorView::Io { operation, path })
        }),
{
    let exchanges = copy_tree(children, src, dst);
    let events = replies(exchanges);
    let (start, first) = spec_start(src, dst);
    let (state, so_far) = feed(start, events.take(at));
    lemma_copies_tree(children, src, dst);
    assert(events =~= events.take(at) + events.skip(at));
    lemma_feed_concat(start, events.take(at), events.skip(at));
    lemma_feed_len(start, events.take(at));
    let whole = feed(start, events).1;
    let late = feed(state, events.skip(at)).1;
    assert(whole == so_far + late);
    assert(seq![first] + so_far =~= actions(exchanges).take(at + 1)) by {
        assert(seq![first] + whole == actions(exchanges).push(ActionView::Finished));
        assert(seq![first] + so_far =~= (seq![first] + whole).take(at + 1));
        assert(actions(exchanges).push(ActionView::Finished).take(at + 1) =~= actions(
            exchanges,
        ).take(at + 1));
    }
    assert((seq![first] + so_far).last() == exchanges[at].action);
    lemma_waits_for_what_it_asked(src, dst, start, EventView::Done);
    lemma_feed_waits(start, first, events.take(at));
    assert(asked(exchanges[at].action) is Some) by {
        lemma_entries_ask(children, src, dst, 0);
        let head = enter(children, src, dst);
        if at >= 2 {
            assert(exchanges[at] == copy_entries(children, src, dst, 0)[at - 2]);
        } else {
            assert(exchanges[at] == head[at]);
        }
    }
    lemma_failure_stops(state, exchanges[at].action);
}

/// A place in a tree, relative to its top: the names that lead to it.
pub type Chain = Seq<Seq<u8>>;

/// The path at which `chain` arrives when it is followed from `base`.
pub open spec fn place(base: Seq<u8>, chain: Chain) -> Seq<u8>
    decreases chain.len(),
{
    if chain.len() == 0 {
        base
    } else {
        place(spec_join(base, chain[0]), chain.drop_first())
    }
}

/// Each of `chains` with `name` put before it.
pub open spec fn under_name(name: Seq<u8>, chains: Seq<Chain>) -> Seq<Chain> {
    Seq::new(chains.len(), |i: int| seq![name] + chains[i])
}

/// The places of the regular files that stand in or under the entries
/// `from..` of a directory, in the order in which a walk finds them.
pub open spec fn files(children: Seq<Child>, from: int) -> Seq<Chain>
    decreases children, children.len() - from,
{
    if 0 <= from < children.len() {
        let child = children[from];
        let rest = files(children, from + 1);
        match child.node {
            Node::File => seq![seq![child.name]] + rest,
            Node::Other => rest,
            Node::Dir(inner) => under_name(child.name, files(inner, 0)) + rest,
        }
    } else {
        Seq::empty()
    }
}

/// The places of the directories that stand in or under the entries
/// `from..` of a directory, in the order in which a walk finds them.
pub open spec fn directories(children: Seq<Child>, from: int) -> Seq<Chain>
    decreases children, children.len() - from,
{
    if 0 <= from < children.len() {
        let child = children[from];
        let rest = directories(children, from + 1);
        match child.node {
            Node::File => rest,
            Node::Other => rest,
            Node::Dir(inner) => seq![seq![child.name]] + under_name(child.name, directories(inner, 0))
                + rest,
        }
    } else {
        Seq::empty()
    }
}

/// The copies that `exchanges` ask for, each as its source and its target.
pub open spec fn copied(exchanges: Seq<Exchange>) -> Seq<(Seq<u8>, Seq<u8>)>
    decreases exchanges.len(),
{
    if exchanges.len() == 0 {
        Seq::empty()
    } else {
        let rest = copied(exchanges.drop_first());
        match exchanges[0].action {
            ActionView::CopyFile { from, to } => seq![(from, to)] + rest,
            _ => rest,
        }
    }
}

/// The directories that `exchanges` ask to have created.
pub open spec fn created(exchanges: Seq<Exchange>) -> Seq<Seq<u8>>
    decreases exchanges.len(),
{
    if exchanges.len() == 0 {
        Seq::empty()
    } else {
        let rest = created(exchanges.drop_first());
        match exchanges[0].action {
            ActionView::CreateDirAll { path } => seq![path] + rest,
            _ => rest,
        }
    }
}

/// Each of `chains` as the pair of its place under `src` and its place under
/// `dst`.
pub open spec fn pairs(src: Seq<u8>, dst: Seq<u8>, chains: Seq<Chain>) -> Seq<(Seq<u8>, Seq<u8>)> {
    Seq::new(chains.len(), |i: int| (place(src, chains[i]), place(dst, chains[i])))
}

/// Each of `chains` as its place under `base`.
pub open spec fn places(base: Seq<u8>, chains: Seq<Chain>) -> Seq<Seq<u8>> {
    Seq::new(chains.len(), |i: int| place(base, chains[i]))
}

/// The copies and the creations of one run of exchanges after another are
/// those of the first followed by those of the second.
pub proof fn lemma_asked_concat(first: Seq<Exchange>, second: Seq<Exchange>)
    ensures
        copied(first + second) == copied(first) + copied(second),
        created(first + second) == created(first) + created(second),
    decreases first.len(),
{
    if first.len() == 0 {
        assert(first + second =~= second);
        assert(copied(first) + copied(second) =~= copied(second));
        assert(created(first) + created(second) =~= created(second));
    } else {
        assert((first + second)[0] == first[0]);
        assert((first + second).drop_first() =~= first.drop_first() + second);
        lemma_asked_concat(first.drop_first(), second);
        let c = copied(first.drop_first());
        let d = created(first.drop_first());
        match first[0].action {
            ActionView::CopyFile { from, to } => {
                assert(seq![(from, to)] + (c + copied(second)) =~= (seq![(from, to)] + c) + copied(
                    second,
                ));
            },
            ActionView::CreateDirAll { path } => {
                assert(seq![path] + (d + created(second)) =~= (seq![path] + d) + created(second));
            },
            _ => {},
        }
    }
}

/// Copying the entries of a directory copies each regular file in or under
/// them from its place under the source to the same place under the target,
/// and nothing else; and it creates each directory in or under them at its
/// place under the target, and no other.
pub proof fn lemma_same_places(children: Seq<Child>, src: Seq<u8>, dst: Seq<u8>, from: int)
    requires
        0 <= from <= children.len(),
    ensures
        copied(copy_entries(children, src, dst, from)) == pairs(src, dst, files(children, from)),
        created(copy_entries(children, src, dst, from)) == places(
            dst,
            directories(children, from),
        ),
    decreases children, children.len() - from,
{
    let exchanges = copy_entries(children, src, dst, from);
    if from == children.len() {
        assert(copied(exchanges) =~= pairs(src, dst, files(children, from)));
        assert(created(exchanges) =~= places(dst, directories(children, from)));
    } else {
        let child = children[from];
        let source = spec_join(src, child.name);
        let target = spec_join(dst, child.name);
        let rest = copy_entries(children, src, dst, from + 1);
        lemma_same_places(children, src, dst, from + 1);
        let only = seq![child.name];
        assert(only.drop_first() =~= Seq::<Seq<u8>>::empty());
        assert(place(source, only.drop_first()) == source);
        assert(place(target, only.drop_first()) == target);
        assert(place(src, only) == source);
        assert(place(dst, only) == target);
        match child.node {
            Node::File => {
                let one = seq![
                    Exchange {
                        action: ActionView::CopyFile { from: source, to: target },
                        reply: EventView::Done,
                    },
                ];
                lemma_asked_concat(one, rest);
                assert(one.drop_first() =~= Seq::<Exchange>::empty());
                assert(copied(one.drop_first()) =~= Seq::empty());
                assert(created(one.drop_first()) =~= Seq::empty());
                assert(copied(one) =~= seq![(source, target)]);
                assert(created(one) =~= Seq::<Seq<u8>>::empty());
                assert(copied(exchanges) =~= pairs(src, dst, files(children, from)));
                assert(created(exchanges) =~= places(dst, directories(children, from)));
            },
            Node::Other => {},
            Node::Dir(inner) => {
                let head = enter(inner, source, target);
                let body = copy_entries(inner, source, target, 0);
                lemma_same_places(inner, source, target, 0);
                lemma_asked_concat(head + body, rest);
                lemma_asked_concat(head, body);
                assert(head.drop_first().drop_first() =~= Seq::<Exchange>::empty());
                assert(copied(head) =~= Seq::<(Seq<u8>, Seq<u8>)>::empty()) by {
                    assert(copied(head.drop_first().drop_first()) =~= Seq::empty());
                    assert(copied(head.drop_first()) =~= Seq::empty());
                }
                assert(created(head) =~= seq![target]) by {
                    assert(created(head.drop_first().drop_first()) =~= Seq::empty());
                    assert(created(head.drop_first()) =~= Seq::empty());
                }
                let inner_files = files(inner, 0);
                let inner_dirs = directories(inner, 0);
                assert forall|i: int| 0 <= i < inner_files.len() implies place(
                    src,
                    #[trigger] under_name(child.name, inner_files)[i],
                ) == place(source, inner_files[i]) && place(dst, under_name(child.name, inner_files)[i])
                    == place(target, inner_files[i]) by {
                    assert((seq![child.name] + inner_files[i]).drop_first() =~= inner_files[i]);
                }
                assert forall|i: int| 0 <= i < inner_dirs.len() implies place(
                    dst,
                    #[trigger] under_name(child.name, inner_dirs)[i],
                ) == place(target, inner_dirs[i]) by {
                    assert((seq![child.name] + inner_dirs[i]).drop_first() =~= inner_dirs[i]);
                }
                assert(copied(exchanges) =~= pairs(src, dst, files(children, from)));
                assert(created(exchanges) =~= places(dst, directories(children, from)));
            },
        }
    }
}

/// Copying a tree copies each regular file in it from its place under the
/// source to the same place under the target, and nothing else; it creates
/// the target and, under it, each directory of the tree at its own place,
/// and no other.
pub proof fn lemma_tree_same_places(children: Seq<Child>, src: Seq<u8>, dst: Seq<u8>)
    ensures
        copied(copy_tree(children, src, dst)) == pairs(src, dst, files(children, 0)),
        created(copy_tree(children, src, dst)) == seq![dst] + places(
            dst,
            directories(children, 0),
        ),
{
    let head = enter(children, src, dst);
    let body = copy_entries(children, src, dst, 0);
    lemma_same_places(children, src, dst, 0);
    lemma_asked_concat(head, body);
    assert(head.drop_first().drop_first() =~= Seq::<Exchange>::empty());
    assert(copied(head) =~= Seq::<(Seq<u8>, Seq<u8>)>::empty()) by {
        assert(copied(head.drop_first().drop_first()) =~= Seq::empty());
        assert(copied(head.drop_first()) =~= Seq::empty());
    }
    assert(created(head) =~= seq![dst]) by {
        assert(created(head.drop_first().drop_first()) =~= Seq::empty());
        assert(created(head.drop_first()) =~= Seq::empty());
    }
    assert(copied(copy_tree(children, src, dst)) =~= pairs(src, dst, files(children, 0)));
}

} // verus!
