//! The scheduling state: lock table, wait queue, and standing reservations.

use crate::content::Author;
use crate::coordinator;
use crate::coordinator::{LockSet, Priority, TxnRequest};
use crate::observe;
use crate::observe::{Event, EventView};
use crate::path;
use crate::path::Standing;
use crate::text;
use crate::tool::WriterId;
use vstd::prelude::*;

verus! {

/// One entry in the coordinator's wait queue.
#[derive(Debug, PartialEq, Eq)]
pub struct Ticket {
    /// The unique sequence number identifying this ticket.
    pub seq: u64,
    /// The writer that owns the transaction; its [`Priority`] fixes queue order.
    pub writer: WriterId,
}

impl View for Ticket {
    type V = (u64, Author);

    open spec fn view(&self) -> (u64, Author) {
        (self.seq, self.writer@)
    }
}

/// A standing human edit reservation: a request to be handed the lock for one
/// article at the head of the queue, recorded without blocking a thread.
#[derive(Debug, PartialEq, Eq)]
pub struct Reservation {
    /// The theme of the reserved article.
    pub theme: String,
    /// The reserved article's file name.
    pub file: String,
}

impl View for Reservation {
    type V = (Seq<char>, Seq<char>);

    open spec fn view(&self) -> (Seq<char>, Seq<char>) {
        (self.theme@, self.file@)
    }
}

/// The outcome of [`Coordinator::request_edit`].
#[derive(Debug, Clone, Copy, PartialEq, Eq, Structural)]
pub struct RequestEditOutcome {
    /// Always `true`: the reservation was recorded at the head of the wait queue.
    pub queued: bool,
    /// How many transactions must finish before the human's turn: `1` for a
    /// currently-running transaction plus one per earlier pending reservation.
    pub ahead: usize,
}

/// A transaction request, as contracts see one.
#[verifier::ext_equal]
pub struct RequestView {
    /// Who runs it.
    pub writer: Author,
    /// At what priority.
    pub priority: Priority,
    /// Which paths it declares.
    pub locks: Seq<Seq<char>>,
}

impl View for TxnRequest {
    type V = RequestView;

    open spec fn view(&self) -> RequestView {
        RequestView { writer: self.writer@, priority: self.priority, locks: self.locks@ }
    }
}

/// The scheduling state, as contracts see it.
#[verifier::ext_equal]
pub struct CoordView {
    /// The locked paths, each with its holder.
    pub held: Seq<(Seq<char>, Author)>,
    /// The waiting tickets, head first.
    pub queue: Seq<(u64, Author)>,
    /// Whether a transaction is inside the critical section.
    pub running: bool,
    /// The standing reservations, oldest first.
    pub reservations: Seq<(Seq<char>, Seq<char>)>,
    /// The next ticket's number.
    pub next_seq: u64,
}

/// Where the first agent of `queue` stands, or the length of `queue`.
pub open spec fn first_agent(queue: Seq<(u64, Author)>) -> int
    decreases queue.len(),
{
    if queue.len() == 0 || coordinator::priority_of(queue[0].1) == Priority::Agent {
        0
    } else {
        1 + first_agent(queue.drop_first())
    }
}

/// Where a new ticket goes: an agent's at the tail, a human's ahead of every
/// agent but behind the humans before it.
pub open spec fn slot(queue: Seq<(u64, Author)>, priority: Priority) -> int {
    match priority {
        Priority::Agent => queue.len() as int,
        Priority::Human => first_agent(queue),
    }
}

/// Whether `p` is locked.
pub open spec fn locked(held: Seq<(Seq<char>, Author)>, p: Seq<char>) -> bool {
    exists|i: int| 0 <= i < held.len() && path::same_path((#[trigger] held[i]).0, p)
}

/// Whether none of `locks` is locked.
pub open spec fn all_free(held: Seq<(Seq<char>, Author)>, locks: Seq<Seq<char>>) -> bool {
    forall|i: int| 0 <= i < locks.len() ==> !locked(held, #[trigger] locks[i])
}

/// Whether the pending reservations let a transaction of this priority run.
pub open spec fn admitted(state: CoordView, priority: Priority) -> bool {
    match priority {
        Priority::Human => true,
        Priority::Agent => state.reservations.len() == 0,
    }
}

/// Whether the transaction with ticket `seq` can enter the critical section: it
/// is empty, the ticket is at the front of the queue, every declared path is
/// free, and no reservation outranks it.
pub open spec fn enterable(state: CoordView, seq: u64, req: RequestView) -> bool {
    &&& !state.running
    &&& state.queue.len() > 0
    &&& state.queue[0].0 == seq
    &&& all_free(state.held, req.locks)
    &&& admitted(state, req.priority)
}

/// Each of `locks`, held by `writer`.
pub open spec fn taken(locks: Seq<Seq<char>>, writer: Author) -> Seq<(Seq<char>, Author)> {
    Seq::new(locks.len(), |i: int| (locks[i], writer))
}

/// Where the oldest reservation stands whose article is among `locks`, or the
/// number of reservations.
pub open spec fn served(reservations: Seq<(Seq<char>, Seq<char>)>, locks: Seq<Seq<char>>) -> int
    decreases reservations.len(),
{
    if reservations.len() == 0 || coordinator::holds(
        locks,
        path::joined_path(reservations[0].0, reservations[0].1),
    ) {
        0
    } else {
        1 + served(reservations.drop_first(), locks)
    }
}

/// `s` without its element `i`, if it has one.
pub open spec fn without<A>(s: Seq<A>, i: int) -> Seq<A> {
    if 0 <= i < s.len() {
        s.remove(i)
    } else {
        s
    }
}

/// Whether entering serves a standing reservation.
pub open spec fn serves(state: CoordView, req: RequestView) -> bool {
    req.priority == Priority::Human && served(state.reservations, req.locks)
        < state.reservations.len()
}

/// The state after the transaction at the front has entered: it holds all its
/// locks, and a human's oldest reservation that it satisfies is served.
pub open spec fn entered(state: CoordView, req: RequestView) -> CoordView {
    CoordView {
        held: state.held + taken(req.locks, req.writer),
        queue: state.queue.drop_first(),
        running: true,
        reservations: if req.priority == Priority::Human {
            without(state.reservations, served(state.reservations, req.locks))
        } else {
            state.reservations
        },
        next_seq: state.next_seq,
    }
}

/// The article that a path names, if it is one: a theme and a file behind it that
/// is not the theme's manifest.
pub open spec fn article_of(p: Seq<char>) -> Option<(Seq<char>, Seq<char>)> {
    let parts = path::parts(p);
    if parts.len() == 2 {
        match parts[1] {
            path::Part::Name(file) => if file == "index.json"@ {
                None
            } else {
                Some((part_text(parts[0]), file))
            },
            _ => None,
        }
    } else {
        None
    }
}

/// How a component is written.
pub open spec fn part_text(part: path::Part) -> Seq<char> {
    match part {
        path::Part::Root => "/"@,
        path::Part::Current => "."@,
        path::Part::Parent => ".."@,
        path::Part::Name(s) => s,
    }
}

/// The articles among `locks`, in order.
pub open spec fn articles(locks: Seq<Seq<char>>) -> Seq<(Seq<char>, Seq<char>)>
    decreases locks.len(),
{
    if locks.len() == 0 {
        Seq::empty()
    } else {
        match article_of(locks.last()) {
            Some(article) => articles(locks.drop_last()).push(article),
            None => articles(locks.drop_last()),
        }
    }
}

/// A handoff for each article.
pub open spec fn handoffs(articles: Seq<(Seq<char>, Seq<char>)>) -> Seq<EventView> {
    Seq::new(
        articles.len(),
        |i: int| EventView::HandoffToHuman { theme: articles[i].0, file: articles[i].1 },
    )
}

/// What is announced when a transaction enters: a human that waited without a
/// reservation is handed each declared article, and the locks are acquired.
pub open spec fn entry_events(state: CoordView, req: RequestView, parked: bool) -> Seq<EventView> {
    (if parked && req.priority == Priority::Human && !serves(state, req) {
        handoffs(articles(req.locks))
    } else {
        Seq::empty()
    }).push(EventView::TxnAcquired { writer: req.writer.tag(), paths: req.locks })
}

/// The locked paths that are not among `locks`.
pub open spec fn still_held(held: Seq<(Seq<char>, Author)>, locks: Seq<Seq<char>>) -> Seq<
    (Seq<char>, Author),
>
    decreases held.len(),
{
    if held.len() == 0 {
        Seq::empty()
    } else if coordinator::holds(locks, held.last().0) {
        still_held(held.drop_last(), locks)
    } else {
        still_held(held.drop_last(), locks).push(held.last())
    }
}

/// The state after a transaction has given its locks back.
pub open spec fn released(state: CoordView, locks: Seq<Seq<char>>) -> CoordView {
    CoordView { held: still_held(state.held, locks), running: false, ..state }
}

/// What is announced when a transaction has given its locks back: a human whose
/// reservation stands at the front is up now.
pub open spec fn release_events(state: CoordView, writer: Author) -> Seq<EventView> {
    seq![EventView::TxnReleased { writer: writer.tag() }] + if state.reservations.len() > 0 {
        seq![
            EventView::HandoffToHuman {
                theme: state.reservations[0].0,
                file: state.reservations[0].1,
            },
        ]
    } else {
        Seq::empty()
    }
}

/// Where the oldest reservation of the article stands, or the number of
/// reservations.
pub open spec fn reserved_at(
    reservations: Seq<(Seq<char>, Seq<char>)>,
    theme: Seq<char>,
    file: Seq<char>,
) -> int
    decreases reservations.len(),
{
    if reservations.len() == 0 || reservations[0] == (theme, file) {
        0
    } else {
        1 + reserved_at(reservations.drop_first(), theme, file)
    }
}

/// The transaction coordinator's state machine.
#[derive(Debug)]
pub struct Coordinator {
    /// Paths currently locked, each with its holding writer.
    held: Vec<(String, WriterId)>,
    /// Tickets waiting for their turn, head first.
    queue: Vec<Ticket>,
    /// `true` while a transaction is inside the critical section.
    running: bool,
    /// Standing human edit reservations, oldest first.
    reservations: Vec<Reservation>,
    /// The next ticket sequence number to hand out.
    next_seq: u64,
}

impl View for Coordinator {
    type V = CoordView;

    closed spec fn view(&self) -> CoordView {
        CoordView {
            held: Seq::new(self.held@.len(), |i: int| (self.held@[i].0@, self.held@[i].1@)),
            queue: Seq::new(self.queue@.len(), |i: int| self.queue@[i]@),
            running: self.running,
            reservations: Seq::new(
                self.reservations@.len(),
                |i: int| self.reservations@[i]@,
            ),
            next_seq: self.next_seq,
        }
    }
}

/// What [`Coordinator::enqueue`] hands back.
#[derive(Debug)]
pub struct Enqueued {
    /// The ticket's sequence number.
    pub seq: u64,
    /// Whether the ticket has to wait.
    pub parked: bool,
    /// The events to emit.
    pub events: Vec<Event>,
}

/// The article that a path names, if it is one.
fn article_at(p: &str) -> (article: Option<(String, String)>)
    ensures
        match article_of(p@) {
            Some((theme, file)) => article matches Some((t, f)) && t@ == theme && f@ == file,
            None => article is None,
        },
{
    let parts: Vec<path::Component> = path::components(p);
    proof {
        assert(path::parts_view(parts@).len() == parts@.len());
    }
    if parts.len() != 2 {
        return None;
    }
    proof {
        assert(path::parts_view(parts@)[0] == parts@[0]@);
        assert(path::parts_view(parts@)[1] == parts@[1]@);
    }
    match &parts[1] {
        path::Component::Name(file) => {
            if text::text_eq(file.as_str(), "index.json") {
                return None;
            }
            let theme = match &parts[0] {
                path::Component::Root => "/".to_owned(),
                path::Component::Current => ".".to_owned(),
                path::Component::Parent => "..".to_owned(),
                path::Component::Name(name) => name.clone(),
            };
            Some((theme, file.clone()))
        },
        _ => None,
    }
}

/// A handoff for each article of a declared [`LockSet`], in its order.
fn article_handoffs(locks: &LockSet) -> (events: Vec<Event>)
    ensures
        observe::events_view(events@) == handoffs(articles(locks@)),
{
    let paths = locks.iter();
    let mut events: Vec<Event> = Vec::new();
    let mut i: usize = 0;
    assert(observe::events_view(events@) == handoffs(articles(locks@.take(0))));
    while i < paths.len()
        invariant
            i <= paths@.len(),
            text::views(paths@) == locks@,
            observe::events_view(events@) == handoffs(articles(locks@.take(i as int))),
        decreases paths@.len() - i,
    {
        let ghost before = observe::events_view(events@);
        proof {
            assert(locks@.take(i + 1).drop_last() == locks@.take(i as int));
            assert(locks@.take(i + 1).last() == paths@[i as int]@);
        }
        if let Some((theme, file)) = article_at(paths[i].as_str()) {
            let ghost view = EventView::HandoffToHuman { theme: theme@, file: file@ };
            events.push(Event::HandoffToHuman { theme, file });
            proof {
                assert(observe::events_view(events@) == before.push(view));
                assert(handoffs(articles(locks@.take(i + 1))) == before.push(view));
            }
        }
        i += 1;
    }
    assert(locks@.take(i as int) == locks@);
    events
}

impl Coordinator {
    /// An idle coordinator.
    pub fn new() -> (c: Self)
        ensures
            c@ == (CoordView {
                held: Seq::empty(),
                queue: Seq::empty(),
                running: false,
                reservations: Seq::empty(),
                next_seq: 0,
            }),
    {
        let c = Coordinator {
            held: Vec::new(),
            queue: Vec::new(),
            running: false,
            reservations: Vec::new(),
            next_seq: 0,
        };
        assert(c@.held == Seq::<(Seq<char>, Author)>::empty());
        assert(c@.queue == Seq::<(u64, Author)>::empty());
        assert(c@.reservations == Seq::<(Seq<char>, Seq<char>)>::empty());
        c
    }

    /// Whether a transaction is inside the critical section.
    pub fn is_running(&self) -> (yes: bool)
        ensures
            yes == self@.running,
    {
        self.running
    }

    /// How many tickets wait.
    pub fn waiting(&self) -> (n: usize)
        ensures
            n == self@.queue.len(),
    {
        self.queue.len()
    }

    /// Whether `p` is locked.
    pub fn is_locked(&self, p: &str) -> (yes: bool)
        ensures
            yes == locked(self@.held, p@),
    {
        let mut i: usize = 0;
        while i < self.held.len()
            invariant
                i <= self.held@.len(),
                forall|k: int|
                    0 <= k < i ==> !path::same_path((#[trigger] self@.held[k]).0, p@),
            decreases self.held@.len() - i,
        {
            assert(self@.held[i as int].0 == self.held@[i as int].0@);
            if path::standing(self.held[i].0.as_str(), p) == Standing::Same {
                return true;
            }
            i += 1;
        }
        false
    }

    /// Whether none of `locks` is locked.
    fn all_free(&self, locks: &LockSet) -> (yes: bool)
        ensures
            yes == all_free(self@.held, locks@),
    {
        let paths = locks.iter();
        let mut i: usize = 0;
        while i < paths.len()
            invariant
                i <= paths@.len(),
                text::views(paths@) == locks@,
                forall|k: int| 0 <= k < i ==> !locked(self@.held, #[trigger] locks@[k]),
            decreases paths@.len() - i,
        {
            assert(locks@[i as int] == paths@[i as int]@);
            if self.is_locked(paths[i].as_str()) {
                return false;
            }
            i += 1;
        }
        true
    }

    /// Whether a request is allowed to enter the critical section given the
    /// pending human reservations.
    fn may_run(&self, req: &TxnRequest) -> (yes: bool)
        ensures
            yes == admitted(self@, req.priority),
    {
        match req.priority {
            Priority::Human => true,
            Priority::Agent => self.reservations.is_empty(),
        }
    }

    /// Whether the transaction with ticket `seq` can enter the critical section.
    pub fn can_enter(&self, seq: u64, req: &TxnRequest) -> (yes: bool)
        ensures
            yes == enterable(self@, seq, req@),
    {
        if self.running || self.queue.is_empty() {
            return false;
        }
        assert(self@.queue[0] == self.queue@[0]@);
        self.queue[0].seq == seq && self.all_free(&req.locks) && self.may_run(req)
    }

    /// Where the first agent of the queue stands.
    fn first_agent(&self) -> (pos: usize)
        ensures
            pos == first_agent(self@.queue),
            pos <= self.queue@.len(),
    {
        let ghost q = self@.queue;
        let mut i: usize = 0;
        assert(q.skip(0) == q);
        while i < self.queue.len()
            invariant
                i <= self.queue@.len(),
                q == self@.queue,
                first_agent(q) == i + first_agent(q.skip(i as int)),
            decreases self.queue@.len() - i,
        {
            assert(q.skip(i as int)[0] == self.queue@[i as int]@);
            if Priority::for_writer(&self.queue[i].writer) == Priority::Agent {
                return i;
            }
            assert(q.skip(i as int).drop_first() == q.skip(i + 1));
            i += 1;
        }
        assert(q.skip(i as int).len() == 0);
        i
    }

    /// Takes a ticket for a transaction: at the queue head for a human (ahead of
    /// every waiting agent, behind earlier humans), at the tail for an agent. A
    /// transaction that cannot enter at once has to wait, which is announced with
    /// the number of tickets ahead of it.
    pub fn enqueue(&mut self, req: &TxnRequest) -> (r: Enqueued)
        requires
            old(self)@.next_seq < u64::MAX,
        ensures
            r.seq == old(self)@.next_seq,
            final(self)@ == (CoordView {
                queue: old(self)@.queue.insert(
                    slot(old(self)@.queue, req.priority),
                    (r.seq, req.writer@),
                ),
                next_seq: (old(self)@.next_seq + 1) as u64,
                ..old(self)@
            }),
            r.parked == !enterable(final(self)@, r.seq, req@),
            observe::events_view(r.events@) == if r.parked {
                seq![
                    EventView::TxnQueued {
                        writer: req.writer@.tag(),
                        ahead: slot(old(self)@.queue, req.priority) as usize,
                    },
                ]
            } else {
                Seq::empty()
            },
    {
        let ghost before = self@;
        let seq: u64 = self.next_seq;
        self.next_seq = seq + 1;
        let pos: usize = match req.priority {
            Priority::Agent => self.queue.len(),
            Priority::Human => self.first_agent(),
        };
        self.queue.insert(pos, Ticket { seq, writer: req.writer.clone() });
        proof {
            assert(self@.queue == before.queue.insert(pos as int, (seq, req.writer@)));
            assert(self@.held == before.held);
            assert(self@.reservations == before.reservations);
        }
        let parked = !self.can_enter(seq, req);
        let mut events: Vec<Event> = Vec::new();
        if parked {
            events.push(Event::TxnQueued { writer: req.writer.provenance_tag(), ahead: pos });
            assert(observe::events_view(events@) == seq![
                EventView::TxnQueued { writer: req.writer@.tag(), ahead: pos },
            ]);
        } else {
            assert(observe::events_view(events@) == Seq::<EventView>::empty());
        }
        Enqueued { seq, parked, events }
    }

    /// Removes the oldest pending reservation a human transaction satisfies,
    /// returning `true` if one was consumed.
    fn consume_reservation(&mut self, locks: &LockSet) -> (consumed: bool)
        ensures
            consumed == (served(old(self)@.reservations, locks@) < old(self)@.reservations.len()),
            final(self)@ == (CoordView {
                reservations: without(
                    old(self)@.reservations,
                    served(old(self)@.reservations, locks@),
                ),
                ..old(self)@
            }),
    {
        let ghost before = self@;
        let ghost all = before.reservations;
        let mut i: usize = 0;
        assert(all.skip(0) == all);
        while i < self.reservations.len()
            invariant
                i <= self.reservations@.len(),
                self@ == before,
                *self == *old(self),
                all == before.reservations,
                before == old(self)@,
                served(all, locks@) == i + served(all.skip(i as int), locks@),
            decreases self.reservations@.len() - i,
        {
            assert(all.skip(i as int)[0] == self.reservations@[i as int]@);
            let p = path::join_path(
                self.reservations[i].theme.as_str(),
                self.reservations[i].file.as_str(),
            );
            if locks.contains(p.as_str()) {
                self.reservations.remove(i);
                proof {
                    assert(self@.reservations == all.remove(i as int));
                    assert(self@.held == before.held);
                    assert(self@.queue == before.queue);
                }
                return true;
            }
            assert(all.skip(i as int).drop_first() == all.skip(i + 1));
            i += 1;
        }
        assert(all.skip(i as int).len() == 0);
        false
    }

    /// Lets the transaction with ticket `seq` enter the critical section, if it
    /// can: it then holds its whole declared set, and the events to emit are handed
    /// back. Else it holds nothing and has to wait.
    pub fn acquire(&mut self, seq: u64, req: &TxnRequest, parked: bool) -> (r: Option<Vec<Event>>)
        ensures
            match r {
                None => !enterable(old(self)@, seq, req@) && final(self)@ == old(self)@,
                Some(events) => {
                    &&& enterable(old(self)@, seq, req@)
                    &&& final(self)@ == entered(old(self)@, req@)
                    &&& observe::events_view(events@) == entry_events(
                        old(self)@,
                        req@,
                        parked,
                    )
                },
            },
    {
        if !self.can_enter(seq, req) {
            return None;
        }
        let ghost before = self@;
        self.queue.remove(0);
        self.running = true;
        proof {
            assert(self@.queue == before.queue.drop_first());
            assert(self@.held == before.held);
            assert(self@.reservations == before.reservations);
        }
        let paths = req.locks.iter();
        let mut i: usize = 0;
        assert(before.held + taken(req@.locks.take(0), req@.writer) == before.held);
        while i < paths.len()
            invariant
                i <= paths@.len(),
                text::views(paths@) == req.locks@,
                self@.held == before.held + taken(req@.locks.take(i as int), req@.writer),
                self@.queue == before.queue.drop_first(),
                self@.running,
                self@.reservations == before.reservations,
                self@.next_seq == before.next_seq,
            decreases paths@.len() - i,
        {
            let ghost mid = self@;
            self.held.push((paths[i].clone(), req.writer.clone()));
            proof {
                assert(self@.held == mid.held.push((req@.locks[i as int], req@.writer)));
                assert(taken(req@.locks.take(i + 1), req@.writer) == taken(
                    req@.locks.take(i as int),
                    req@.writer,
                ).push((req@.locks[i as int], req@.writer)));
                assert(self@.queue == mid.queue);
                assert(self@.reservations == mid.reservations);
            }
            i += 1;
        }
        assert(req@.locks.take(i as int) == req@.locks);
        let consumed = req.priority == Priority::Human && self.consume_reservation(&req.locks);
        let mut events: Vec<Event> = if parked && req.priority == Priority::Human && !consumed {
            article_handoffs(&req.locks)
        } else {
            Vec::new()
        };
        let ghost held = observe::events_view(events@);
        let acquired = Event::TxnAcquired {
            writer: req.writer.provenance_tag(),
            paths: req.locks.iter().clone(),
        };
        proof {
            assert(text::views(acquired->TxnAcquired_paths@) == req@.locks);
            assert(held == if parked && req.priority == Priority::Human && !serves(before, req@) {
                handoffs(articles(req@.locks))
            } else {
                Seq::empty()
            });
        }
        events.push(acquired);
        assert(observe::events_view(events@) == held.push(
            EventView::TxnAcquired { writer: req@.writer.tag(), paths: req@.locks },
        ));
        assert(self@ == entered(before, req@));
        Some(events)
    }

    /// Gives the locks of the running transaction back and hands back the events
    /// to emit; whoever waits has to look again.
    pub fn release(&mut self, locks: &LockSet, writer: &WriterId) -> (events: Vec<Event>)
        ensures
            final(self)@ == released(old(self)@, locks@),
            observe::events_view(events@) == release_events(old(self)@, writer@),
    {
        let ghost before = self@;
        let mut kept: Vec<(String, WriterId)> = Vec::new();
        let mut i: usize = 0;
        let ghost mut view: Seq<(Seq<char>, Author)> = Seq::empty();
        while i < self.held.len()
            invariant
                i <= self.held@.len(),
                self@ == before,
                view == still_held(before.held.take(i as int), locks@),
                view == Seq::new(kept@.len(), |k: int| (kept@[k].0@, kept@[k].1@)),
            decreases self.held@.len() - i,
        {
            proof {
                assert(before.held.take(i + 1).drop_last() == before.held.take(i as int));
                assert(before.held.take(i + 1).last() == (
                    self.held@[i as int].0@,
                    self.held@[i as int].1@,
                ));
            }
            if !locks.contains(self.held[i].0.as_str()) {
                kept.push((self.held[i].0.clone(), self.held[i].1.clone()));
                proof {
                    view = view.push((self.held@[i as int].0@, self.held@[i as int].1@));
                    assert(view == Seq::new(kept@.len(), |k: int| (kept@[k].0@, kept@[k].1@)));
                }
            }
            i += 1;
        }
        assert(before.held.take(i as int) == before.held);
        self.held = kept;
        self.running = false;
        proof {
            assert(self@.held == view);
            assert(self@.queue == before.queue);
            assert(self@.reservations == before.reservations);
        }
        let mut events: Vec<Event> = Vec::new();
        events.push(Event::TxnReleased { writer: writer.provenance_tag() });
        if self.reservations.len() > 0 {
            assert(before.reservations[0] == self.reservations@[0]@);
            events.push(
                Event::HandoffToHuman {
                    theme: self.reservations[0].theme.clone(),
                    file: self.reservations[0].file.clone(),
                },
            );
        }
        assert(observe::events_view(events@) == release_events(before, writer@));
        events
    }

    /// Records a standing human edit reservation for `<theme>/<file>`, returning how
    /// many transactions are ahead of it and the events to emit. Where none is
    /// ahead, the human is up immediately.
    pub fn request_edit(&mut self, theme: &str, file: &str) -> (r: (
        RequestEditOutcome,
        Vec<Event>,
    ))
        requires
            old(self)@.reservations.len() < usize::MAX,
        ensures
            r.0.queued,
            r.0.ahead == old(self)@.reservations.len() + if old(self)@.running {
                1int
            } else {
                0
            },
            final(self)@ == (CoordView {
                reservations: old(self)@.reservations.push((theme@, file@)),
                ..old(self)@
            }),
            observe::events_view(r.1@) == if r.0.ahead == 0 {
                seq![EventView::HandoffToHuman { theme: theme@, file: file@ }]
            } else {
                Seq::empty()
            },
    {
        let ghost before = self@;
        let running: usize = if self.running {
            1
        } else {
            0
        };
        let ahead: usize = running + self.reservations.len();
        self.reservations.push(Reservation { theme: theme.to_owned(), file: file.to_owned() });
        proof {
            assert(self@.reservations == before.reservations.push((theme@, file@)));
            assert(self@.held == before.held);
            assert(self@.queue == before.queue);
        }
        let mut events: Vec<Event> = Vec::new();
        if ahead == 0 {
            events.push(Event::HandoffToHuman { theme: theme.to_owned(), file: file.to_owned() });
            assert(observe::events_view(events@) == seq![
                EventView::HandoffToHuman { theme: theme@, file: file@ },
            ]);
        } else {
            assert(observe::events_view(events@) == Seq::<EventView>::empty());
        }
        (RequestEditOutcome { queued: true, ahead }, events)
    }

    /// Cancels the oldest standing reservation for `<theme>/<file>`, returning
    /// `true` if one was pending; whoever waits has then to look again.
    pub fn cancel_request_edit(&mut self, theme: &str, file: &str) -> (removed: bool)
        ensures
            removed == old(self)@.reservations.contains((theme@, file@)),
            final(self)@ == (CoordView {
                reservations: without(
                    old(self)@.reservations,
                    reserved_at(old(self)@.reservations, theme@, file@),
                ),
                ..old(self)@
            }),
    {
        let ghost before = self@;
        let ghost all = before.reservations;
        let mut i: usize = 0;
        assert(all.skip(0) == all);
        while i < self.reservations.len()
            invariant
                i <= self.reservations@.len(),
                self@ == before,
                *self == *old(self),
                before == old(self)@,
                all == before.reservations,
                forall|k: int| 0 <= k < i ==> all[k] != (theme@, file@),
                reserved_at(all, theme@, file@) == i + reserved_at(
                    all.skip(i as int),
                    theme@,
                    file@,
                ),
            decreases self.reservations@.len() - i,
        {
            assert(all.skip(i as int)[0] == self.reservations@[i as int]@);
            assert(all[i as int] == self.reservations@[i as int]@);
            if text::text_eq(self.reservations[i].theme.as_str(), theme) && text::text_eq(
                self.reservations[i].file.as_str(),
                file,
            ) {
                self.reservations.remove(i);
                proof {
                    assert(self@.reservations == all.remove(i as int));
                    assert(self@.held == before.held);
                    assert(self@.queue == before.queue);
                }
                return true;
            }
            assert(all.skip(i as int).drop_first() == all.skip(i + 1));
            i += 1;
        }
        assert(all.skip(i as int).len() == 0);
        false
    }
}

} // verus!
