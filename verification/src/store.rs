//! A model of the store the limiters talk to.
//!
//! The store itself is outside this library. This module writes down, as spec
//! functions, what the library takes its commands to do: keys that hold a
//! number, a sorted set or a list, each with an optional deadline after which
//! the key is gone. A batch is taken to run all or nothing. The laws of the
//! algorithm modules are proved against this model, with one caller at a time
//! and the store's clock equal to the caller's.

use vstd::prelude::*;
use crate::command::{Batch, Command, Entry};
use crate::error::Fault;

verus! {

/// What a key holds.
pub enum Content {
    /// A string that spells an integer.
    Number(int),
    /// A sorted set: each member with its score.
    Ledger(Map<int, int>),
    /// A list, head first.
    Queue(Seq<int>),
}

/// A key's content and the millisecond after which it is gone, if any.
pub struct Slot {
    pub content: Content,
    pub deadline: Option<int>,
}

/// What came back for a batch.
pub enum Answer {
    /// One value for each command that was not ignored, in order; `None` is
    /// the store's nil.
    Values(Seq<Option<i64>>),
    /// The batch failed as a whole.
    Failed(Fault),
}

/// The store: its keys and what they hold.
pub struct Store {
    pub slots: Map<Seq<char>, Slot>,
}

/// An integer that a reply can carry.
pub open spec fn fits(n: int) -> bool {
    i64::MIN <= n <= i64::MAX
}

/// The members of a sorted set that `RemoveBelow` leaves in place.
pub open spec fn kept(ledger: Map<int, int>, bound: int) -> Map<int, int> {
    ledger.restrict(Set::new(|m: int| ledger.dom().contains(m) && !(0 <= ledger[m] < bound)))
}

/// The part of a list that `Trim` leaves in place, with Redis's reading of
/// negative positions as counted from the end.
pub open spec fn trimmed(queue: Seq<int>, start: int, stop: int) -> Seq<int> {
    let n = queue.len() as int;
    let from = if start < 0 {
        if n + start < 0 {
            0
        } else {
            n + start
        }
    } else {
        start
    };
    let to = if stop < 0 {
        n + stop
    } else if stop >= n {
        n - 1
    } else {
        stop
    };
    if from > to || from >= n {
        Seq::empty()
    } else {
        queue.subrange(from, to + 1)
    }
}

impl Command {
    /// Commands the store answers with a bare status instead of a number; a
    /// batch must ignore their replies.
    pub open spec fn answers_status(self) -> bool {
        self is Write || self is Trim
    }
}

impl Store {
    /// Every sorted set has finitely many members.
    pub open spec fn well_formed(self) -> bool {
        forall|key: Seq<char>| #[trigger]
            self.slots.dom().contains(key) ==> match self.slots[key].content {
                Content::Ledger(members) => members.dom().finite(),
                _ => true,
            }
    }

    /// What `key` holds at time `now`, if it exists and has not expired. A key
    /// lives up to and including its deadline.
    pub open spec fn live(self, key: Seq<char>, now: int) -> Option<Slot> {
        if self.slots.dom().contains(key) && (self.slots[key].deadline is None || now
            <= self.slots[key].deadline->0) {
            Some(self.slots[key])
        } else {
            None
        }
    }

    /// The store with `key` holding `slot`.
    pub open spec fn put(self, key: Seq<char>, slot: Slot) -> Store {
        Store { slots: self.slots.insert(key, slot) }
    }

    /// The store with `key` gone.
    pub open spec fn without(self, key: Seq<char>) -> Store {
        Store { slots: self.slots.remove(key) }
    }

    /// The number at `key`, counting an absent key as 0; `None` when the key
    /// holds something else.
    pub open spec fn number(self, key: Seq<char>, now: int) -> Option<int> {
        match self.live(key, now) {
            None => Some(0),
            Some(slot) => match slot.content {
                Content::Number(n) => Some(n),
                _ => None,
            },
        }
    }

    /// The members of the sorted set at `key`, none for an absent key; `None`
    /// when the key holds something else.
    pub open spec fn ledger(self, key: Seq<char>, now: int) -> Option<Map<int, int>> {
        match self.live(key, now) {
            None => Some(Map::empty()),
            Some(slot) => match slot.content {
                Content::Ledger(members) => Some(members),
                _ => None,
            },
        }
    }

    /// The list at `key`, empty for an absent key; `None` when the key holds
    /// something else.
    pub open spec fn queue(self, key: Seq<char>, now: int) -> Option<Seq<int>> {
        match self.live(key, now) {
            None => Some(Seq::empty()),
            Some(slot) => match slot.content {
                Content::Queue(items) => Some(items),
                _ => None,
            },
        }
    }

    /// Adds `delta` to the number at `key`; fails on another kind of content or
    /// when the number leaves the signed 64-bit range.
    pub open spec fn shift(self, key: Seq<char>, delta: int, now: int) -> Option<
        (Store, Option<i64>),
    > {
        match self.live(key, now) {
            None => if fits(delta) {
                Some(
                    (
                        self.put(key, Slot { content: Content::Number(delta), deadline: None }),
                        Some(delta as i64),
                    ),
                )
            } else {
                None
            },
            Some(slot) => match slot.content {
                Content::Number(n) => if fits(n) && fits(n + delta) {
                    Some(
                        (
                            self.put(
                                key,
                                Slot {
                                    content: Content::Number(n + delta),
                                    deadline: slot.deadline,
                                },
                            ),
                            Some((n + delta) as i64),
                        ),
                    )
                } else {
                    None
                },
                _ => None,
            },
        }
    }

    /// One command at time `now`: the store afterwards and the reply, or
    /// `None` when the store refuses the command or the reply cannot be read
    /// as a number.
    pub open spec fn apply(self, command: Command, now: int) -> Option<(Store, Option<i64>)> {
        match command {
            Command::Get { key } => match self.live(key, now) {
                None => Some((self, None)),
                Some(slot) => match slot.content {
                    Content::Number(n) => if fits(n) {
                        Some((self, Some(n as i64)))
                    } else {
                        None
                    },
                    _ => None,
                },
            },
            Command::SetIfAbsent { key, value } => match self.live(key, now) {
                None => Some(
                    (
                        self.put(key, Slot { content: Content::Number(value), deadline: None }),
                        Some(1i64),
                    ),
                ),
                Some(_) => Some((self, Some(0i64))),
            },
            Command::Write { key, value } => Some(
                (self.put(key, Slot { content: Content::Number(value), deadline: None }), None),
            ),
            Command::Increment { key, delta } => self.shift(key, delta, now),
            Command::Decrement { key, delta } => self.shift(key, -delta, now),
            Command::Expire { key, seconds } => match self.live(key, now) {
                None => Some((self, Some(0i64))),
                Some(slot) => if seconds <= 0 {
                    Some((self.without(key), Some(1i64)))
                } else {
                    Some(
                        (
                            self.put(
                                key,
                                Slot {
                                    content: slot.content,
                                    deadline: Some(now + seconds * 1000),
                                },
                            ),
                            Some(1i64),
                        ),
                    )
                },
            },
            Command::RemoveBelow { key, bound } => match self.live(key, now) {
                None => Some((self, Some(0i64))),
                Some(slot) => match slot.content {
                    Content::Ledger(members) => {
                        let rest = kept(members, bound);
                        let gone = members.dom().len() - rest.dom().len();
                        if !fits(gone) {
                            None
                        } else if rest.dom().len() == 0 {
                            Some((self.without(key), Some(gone as i64)))
                        } else {
                            Some(
                                (
                                    self.put(
                                        key,
                                        Slot {
                                            content: Content::Ledger(rest),
                                            deadline: slot.deadline,
                                        },
                                    ),
                                    Some(gone as i64),
                                ),
                            )
                        }
                    },
                    _ => None,
                },
            },
            Command::Add { key, score, member } => match self.live(key, now) {
                None => Some(
                    (
                        self.put(
                            key,
                            Slot {
                                content: Content::Ledger(Map::empty().insert(member, score)),
                                deadline: None,
                            },
                        ),
                        Some(1i64),
                    ),
                ),
                Some(slot) => match slot.content {
                    Content::Ledger(members) => if fits(
                        members.insert(member, score).dom().len() as int,
                    ) {
                        Some(
                            (
                                self.put(
                                    key,
                                    Slot {
                                        content: Content::Ledger(members.insert(member, score)),
                                        deadline: slot.deadline,
                                    },
                                ),
                                Some(
                                    if members.dom().contains(member) {
                                        0i64
                                    } else {
                                        1i64
                                    },
                                ),
                            ),
                        )
                    } else {
                        None
                    },
                    _ => None,
                },
            },
            Command::Cardinality { key } => match self.ledger(key, now) {
                None => None,
                Some(members) => if fits(members.dom().len() as int) {
                    Some((self, Some(members.dom().len() as i64)))
                } else {
                    None
                },
            },
            Command::PushTail { key, value } => match self.live(key, now) {
                None => Some(
                    (
                        self.put(
                            key,
                            Slot { content: Content::Queue(seq![value]), deadline: None },
                        ),
                        Some(1i64),
                    ),
                ),
                Some(slot) => match slot.content {
                    Content::Queue(items) => if fits(items.len() as int + 1) {
                        Some(
                            (
                                self.put(
                                    key,
                                    Slot {
                                        content: Content::Queue(items.push(value)),
                                        deadline: slot.deadline,
                                    },
                                ),
                                Some((items.len() + 1) as i64),
                            ),
                        )
                    } else {
                        None
                    },
                    _ => None,
                },
            },
            Command::Trim { key, start, stop } => match self.live(key, now) {
                None => Some((self, None)),
                Some(slot) => match slot.content {
                    Content::Queue(items) => {
                        let rest = trimmed(items, start, stop);
                        if rest.len() == 0 {
                            Some((self.without(key), None))
                        } else {
                            Some(
                                (
                                    self.put(
                                        key,
                                        Slot {
                                            content: Content::Queue(rest),
                                            deadline: slot.deadline,
                                        },
                                    ),
                                    None,
                                ),
                            )
                        }
                    },
                    _ => None,
                },
            },
            Command::Length { key } => match self.queue(key, now) {
                None => None,
                Some(items) => if fits(items.len() as int) {
                    Some((self, Some(items.len() as i64)))
                } else {
                    None
                },
            },
            Command::Items { key } => match self.listing(key, now) {
                None => None,
                Some(_) => Some((self, None)),
            },
        }
    }

    /// The list at `key` as a reply carries it: each element as a number,
    /// head first, nothing for an absent key; `None` when the key holds
    /// something else or an element that no reply can carry.
    pub open spec fn listing(self, key: Seq<char>, now: int) -> Option<Seq<Option<i64>>> {
        match self.queue(key, now) {
            None => None,
            Some(items) => if forall|i: int| 0 <= i < items.len() ==> fits(#[trigger] items[i]) {
                Some(Seq::new(items.len(), |i: int| Some(items[i] as i64)))
            } else {
                None
            },
        }
    }

    /// One more entry after a run of entries: the store moves on, and the
    /// reply joins the others unless the entry is ignored. An entry that is
    /// answered with a status and not ignored cannot be read: the batch fails.
    /// A list that was read joins the replies element by element.
    pub open spec fn and_then(
        so_far: Option<(Store, Seq<Option<i64>>)>,
        entry: Entry,
        now: int,
    ) -> Option<(Store, Seq<Option<i64>>)> {
        match so_far {
            None => None,
            Some((store, replies)) => match store.apply(entry.command, now) {
                None => None,
                Some((next, reply)) => if entry.ignored {
                    Some((next, replies))
                } else if entry.command.answers_status() {
                    None
                } else if entry.command is Items {
                    Some((next, replies + store.listing(entry.command.key(), now)->0))
                } else {
                    Some((next, replies.push(reply)))
                },
            },
        }
    }

    /// The entries of a batch one after the other, or `None` as soon as one
    /// fails.
    pub open spec fn sequence(self, entries: Seq<Entry>, now: int) -> Option<
        (Store, Seq<Option<i64>>),
    >
        decreases entries.len(),
    {
        if entries.len() == 0 {
            Some((self, Seq::empty()))
        } else {
            Self::and_then(self.sequence(entries.drop_last(), now), entries.last(), now)
        }
    }

    /// A whole batch at time `now`, all or nothing: the store afterwards and
    /// the answer.
    pub open spec fn execute(self, batch: Batch, now: int) -> (Store, Answer) {
        match self.sequence(batch.entries, now) {
            None => (self, Answer::Failed(Fault::Command)),
            Some((store, replies)) => (store, Answer::Values(replies)),
        }
    }
}

/// Running a batch with one more command is running the batch and then the
/// command.
pub proof fn sequence_with(store: Store, batch: Batch, command: Command, ignored: bool, now: int)
    ensures
        store.sequence(batch.with(command, ignored).entries, now) == Store::and_then(
            store.sequence(batch.entries, now),
            Entry { command, ignored },
            now,
        ),
        store.sequence(Batch::empty(batch.atomic).entries, now) == Some(
            (store, Seq::<Option<i64>>::empty()),
        ),
{
    let entries = batch.with(command, ignored).entries;
    assert(entries.drop_last() =~= batch.entries);
    assert(entries.last() == Entry { command, ignored });
}

/// The answer to what a run of entries came to.
pub open spec fn settle(before: Store, run: Option<(Store, Seq<Option<i64>>)>) -> (Store, Answer) {
    match run {
        None => (before, Answer::Failed(Fault::Command)),
        Some((store, replies)) => (store, Answer::Values(replies)),
    }
}

/// The nothing that a batch starts from.
pub open spec fn untouched(store: Store) -> Option<(Store, Seq<Option<i64>>)> {
    Some((store, Seq::empty()))
}

/// A batch of one command, spelled out.
pub proof fn execute_one(store: Store, atomic: bool, first: Entry, now: int)
    ensures
        store.execute(Batch::empty(atomic).with(first.command, first.ignored), now) == settle(
            store,
            Store::and_then(untouched(store), first, now),
        ),
{
    let b0 = Batch::empty(atomic);
    sequence_with(store, b0, first.command, first.ignored, now);
}

/// A batch of two commands, spelled out.
pub proof fn execute_two(store: Store, atomic: bool, first: Entry, second: Entry, now: int)
    ensures
        store.execute(
            Batch::empty(atomic).with(first.command, first.ignored).with(
                second.command,
                second.ignored,
            ),
            now,
        ) == settle(
            store,
            Store::and_then(Store::and_then(untouched(store), first, now), second, now),
        ),
{
    let b0 = Batch::empty(atomic);
    let b1 = b0.with(first.command, first.ignored);
    sequence_with(store, b0, first.command, first.ignored, now);
    sequence_with(store, b1, second.command, second.ignored, now);
}

/// A batch of three commands, spelled out.
pub proof fn execute_three(
    store: Store,
    atomic: bool,
    first: Entry,
    second: Entry,
    third: Entry,
    now: int,
)
    ensures
        store.execute(
            Batch::empty(atomic).with(first.command, first.ignored).with(
                second.command,
                second.ignored,
            ).with(third.command, third.ignored),
            now,
        ) == settle(
            store,
            Store::and_then(
                Store::and_then(Store::and_then(untouched(store), first, now), second, now),
                third,
                now,
            ),
        ),
{
    let b0 = Batch::empty(atomic);
    let b1 = b0.with(first.command, first.ignored);
    let b2 = b1.with(second.command, second.ignored);
    sequence_with(store, b0, first.command, first.ignored, now);
    sequence_with(store, b1, second.command, second.ignored, now);
    sequence_with(store, b2, third.command, third.ignored, now);
}

/// A batch of four commands, spelled out.
pub proof fn execute_four(
    store: Store,
    atomic: bool,
    first: Entry,
    second: Entry,
    third: Entry,
    fourth: Entry,
    now: int,
)
    ensures
        store.execute(
            Batch::empty(atomic).with(first.command, first.ignored).with(
                second.command,
                second.ignored,
            ).with(third.command, third.ignored).with(fourth.command, fourth.ignored),
            now,
        ) == settle(
            store,
            Store::and_then(
                Store::and_then(
                    Store::and_then(Store::and_then(untouched(store), first, now), second, now),
                    third,
                    now,
                ),
                fourth,
                now,
            ),
        ),
{
    let b0 = Batch::empty(atomic);
    let b1 = b0.with(first.command, first.ignored);
    let b2 = b1.with(second.command, second.ignored);
    let b3 = b2.with(third.command, third.ignored);
    sequence_with(store, b0, first.command, first.ignored, now);
    sequence_with(store, b1, second.command, second.ignored, now);
    sequence_with(store, b2, third.command, third.ignored, now);
    sequence_with(store, b3, fourth.command, fourth.ignored, now);
}

} // verus!
