//! A process's mailbox: a ring of mail slots, read in the order written.
use vstd::prelude::*;

verus! {

const MAILBOX_CAPACITY: usize = 16;

pub const MAX_MAIL_LEN: usize = 256;

#[allow(non_camel_case_types)]
#[derive(Copy, Clone, PartialEq, Eq, Structural)]
pub enum MailboxStatus {
    EMPTY,
    FULL,
    NORMAL,
}

pub struct MailboxInner {
    buffer: Vec<Vec<u8>>,
    head: usize,
    tail: usize,
    status: MailboxStatus,
}

/// `(i + 1) % MAILBOX_CAPACITY`.
pub open spec fn next_slot(i: int) -> int {
    (i + 1) % 16
}

/// `post` is `pre` after a read: the head slot emptied and the head moved
/// on; the mailbox is empty when the head meets the tail.
pub open spec fn after_read(pre: MailboxInner, post: MailboxInner) -> bool {
    &&& post.wf()
    &&& post.slots() == pre.slots().update(pre.head_slot(), Seq::<u8>::empty())
    &&& post.head_slot() == next_slot(pre.head_slot())
    &&& post.tail_slot() == pre.tail_slot()
    &&& post.state() == if post.head_slot() == pre.tail_slot() {
        MailboxStatus::EMPTY
    } else {
        MailboxStatus::NORMAL
    }
}

/// `post` is `pre` after `data` was written: the bytes appended to the tail
/// slot and the tail moved on; the mailbox is full when the tail meets the head.
pub open spec fn after_write(pre: MailboxInner, post: MailboxInner, data: Seq<u8>) -> bool {
    &&& post.wf()
    &&& post.slots() == pre.slots().update(pre.tail_slot(), pre.slots()[pre.tail_slot()] + data)
    &&& post.head_slot() == pre.head_slot()
    &&& post.tail_slot() == next_slot(pre.tail_slot())
    &&& post.state() == if post.tail_slot() == pre.head_slot() {
        MailboxStatus::FULL
    } else {
        MailboxStatus::NORMAL
    }
}

/// How many bytes a read into a buffer of `room` bytes copies.
pub open spec fn read_len(pre: MailboxInner, room: int) -> int {
    if room < pre.slots()[pre.head_slot()].len() {
        room
    } else {
        pre.slots()[pre.head_slot()].len() as int
    }
}

/// A read copies `min(room, length of the oldest mail)` bytes: no more than
/// the buffer holds or the mail has, and one of the two exactly; so a
/// non-empty buffer gets a non-empty part of a non-empty mail.
pub proof fn lemma_read_len(pre: MailboxInner, room: int)
    requires
        room >= 0,
    ensures
        0 <= read_len(pre, room) <= room,
        read_len(pre, room) <= pre.slots()[pre.head_slot()].len(),
        read_len(pre, room) == room || read_len(pre, room) == pre.slots()[pre.head_slot()].len(),
        room > 0 && pre.slots()[pre.head_slot()].len() > 0 ==> read_len(pre, room) > 0,
{
}

impl MailboxInner {
    /// The contents of the slots, slot by slot.
    pub closed spec fn slots(&self) -> Seq<Seq<u8>> {
        self.buffer@.map_values(|v: Vec<u8>| v@)
    }

    /// The slot that the next read takes.
    pub closed spec fn head_slot(&self) -> int {
        self.head as int
    }

    /// The slot that the next write fills.
    pub closed spec fn tail_slot(&self) -> int {
        self.tail as int
    }

    pub closed spec fn state(&self) -> MailboxStatus {
        self.status
    }

    /// How many mails wait to be read.
    pub open spec fn mail_count(&self) -> int {
        if self.state() == MailboxStatus::EMPTY {
            0
        } else if self.state() == MailboxStatus::FULL {
            16
        } else {
            (self.tail_slot() - self.head_slot() + 16) % 16
        }
    }

    /// The mails that wait to be read, oldest first.
    pub open spec fn mails(&self) -> Seq<Seq<u8>> {
        Seq::new(self.mail_count() as nat, |k: int| self.slots()[(self.head_slot() + k) % 16])
    }

    /// The status agrees with the head and the tail, and the slots that hold
    /// no waiting mail are empty.
    pub open spec fn consistent(&self) -> bool {
        &&& self.wf()
        &&& (self.state() == MailboxStatus::NORMAL <==> self.head_slot() != self.tail_slot())
        &&& forall|k: int|
            self.mail_count() <= k < 16 ==> #[trigger] self.slots()[(self.head_slot() + k) % 16]
                == Seq::<u8>::empty()
    }

    pub open spec fn wf(&self) -> bool {
        &&& self.slots().len() == 16
        &&& 0 <= self.head_slot() < 16
        &&& 0 <= self.tail_slot() < 16
    }

    pub fn new() -> (r: Self)
        ensures
            r.wf(),
            r.slots() == Seq::new(16, |i: int| Seq::<u8>::empty()),
            r.head_slot() == 0,
            r.tail_slot() == 0,
            r.state() == MailboxStatus::EMPTY,
            r.consistent(),
            r.mails() == Seq::<Seq<u8>>::empty(),
    {
        let mut buffer: Vec<Vec<u8>> = Vec::new();
        let mut i: usize = 0;
        while i < MAILBOX_CAPACITY
            invariant
                i <= MAILBOX_CAPACITY,
                buffer@.len() == i,
                forall|j: int| 0 <= j < i ==> (#[trigger] buffer@[j])@ == Seq::<u8>::empty(),
            decreases MAILBOX_CAPACITY - i,
        {
            buffer.push(Vec::new());
            i = i + 1;
        }
        let r = Self { buffer, head: 0, tail: 0, status: MailboxStatus::EMPTY };
        assert(r.slots() =~= Seq::new(16, |i: int| Seq::<u8>::empty()));
        assert(r.mails() =~= Seq::<Seq<u8>>::empty());
        r
    }

    /// Whether a mail waits to be read.
    pub fn readable(&self) -> (r: bool)
        ensures
            r == (self.state() != MailboxStatus::EMPTY),
    {
        self.status != MailboxStatus::EMPTY
    }

    /// Whether a mail can be written without overtaking the head.
    pub fn writable(&self) -> (r: bool)
        ensures
            r == (self.state() != MailboxStatus::FULL),
    {
        self.status != MailboxStatus::FULL
    }

    /// Copies the mail in the head slot into `buf`, as far as `buf` has room,
    /// empties that slot and moves the head on; returns how many bytes were
    /// copied.
    pub fn read_mail(&mut self, buf: &mut Vec<u8>) -> (r: usize)
        requires
            old(self).wf(),
        ensures
            final(self).wf(),
            r == read_len(*old(self), old(buf)@.len() as int),
            final(buf)@ == old(self).slots()[old(self).head_slot()].subrange(0, r as int) + old(
                buf,
            )@.subrange(r as int, old(buf)@.len() as int),
            after_read(*old(self), *final(self)),
            old(self).consistent() && old(self).state() != MailboxStatus::EMPTY ==> {
                &&& final(self).consistent()
                &&& final(self).mails() == old(self).mails().drop_first()
                &&& old(self).mails()[0] == old(self).slots()[old(self).head_slot()]
            },
    {
        self.status = MailboxStatus::NORMAL;
        let ghost mail = self.slots()[self.head as int];
        let mut read_size: usize = 0;
        while read_size < buf.len()
            invariant
                self.wf(),
                self.status == MailboxStatus::NORMAL,
                self.buffer == old(self).buffer,
                self.head == old(self).head,
                self.tail == old(self).tail,
                mail == old(self).slots()[old(self).head_slot()],
                buf@.len() == old(buf)@.len(),
                read_size <= buf@.len(),
                read_size <= mail.len(),
                buf@ == mail.subrange(0, read_size as int) + old(buf)@.subrange(
                    read_size as int,
                    old(buf)@.len() as int,
                ),
            ensures
                self.wf(),
                self.status == MailboxStatus::NORMAL,
                self.buffer == old(self).buffer,
                self.head == old(self).head,
                self.tail == old(self).tail,
                read_size == if buf@.len() < mail.len() { buf@.len() } else { mail.len() },
                buf@ == mail.subrange(0, read_size as int) + old(buf)@.subrange(
                    read_size as int,
                    old(buf)@.len() as int,
                ),
            decreases buf@.len() - read_size,
        {
            if read_size >= self.buffer[self.head].len() {
                break ;
            }
            let byte = self.buffer[self.head][read_size];
            buf.set(read_size, byte);
            read_size += 1;
            proof {
                assert(buf@ =~= mail.subrange(0, read_size as int) + old(buf)@.subrange(
                    read_size as int,
                    old(buf)@.len() as int,
                ));
            }
        }
        self.buffer.set(self.head, Vec::new());
        self.head = (self.head + 1) % MAILBOX_CAPACITY;
        if self.head == self.tail {
            self.status = MailboxStatus::EMPTY;
        }
        proof {
            assert(self.slots() =~= old(self).slots().update(old(self).head_slot(), Seq::<u8>::empty()));
            if old(self).consistent() && old(self).state() != MailboxStatus::EMPTY {
                lemma_read_queue(*old(self), *self);
            }
        }
        read_size
    }

    /// Appends the bytes of `buf` to the mail in the tail slot and moves the
    /// tail on; returns how many bytes were written.
    pub fn write_mail(&mut self, buf: &Vec<u8>) -> (r: usize)
        requires
            old(self).wf(),
        ensures
            final(self).wf(),
            r == buf@.len(),
            after_write(*old(self), *final(self), buf@),
            old(self).consistent() && old(self).state() != MailboxStatus::FULL ==> {
                &&& final(self).consistent()
                &&& final(self).mails() == old(self).mails().push(buf@)
            },
    {
        self.status = MailboxStatus::NORMAL;
        let mut write_size: usize = 0;
        while write_size < buf.len()
            invariant
                self.wf(),
                self.head == old(self).head,
                self.tail == old(self).tail,
                self.status == MailboxStatus::NORMAL,
                old(self).wf(),
                write_size <= buf@.len(),
                self.slots() == old(self).slots().update(
                    old(self).tail_slot(),
                    old(self).slots()[old(self).tail_slot()] + buf@.subrange(0, write_size as int),
                ),
            decreases buf@.len() - write_size,
        {
            let ghost before = self.slots();
            self.buffer[self.tail].push(buf[write_size]);
            write_size += 1;
            proof {
                let t = old(self).tail_slot();
                assert(old(self).slots()[t] + buf@.subrange(0, write_size as int) =~= (
                old(self).slots()[t] + buf@.subrange(0, write_size - 1)).push(buf@[write_size - 1]));
                assert(self.slots() =~= before.update(t, before[t].push(buf@[write_size - 1])));
            }
        }
        assert(buf@.subrange(0, write_size as int) =~= buf@);
        self.tail = (self.tail + 1) % MAILBOX_CAPACITY;
        if self.tail == self.head {
            self.status = MailboxStatus::FULL;
        }
        proof {
            if old(self).consistent() && old(self).state() != MailboxStatus::FULL {
                lemma_write_queue(*old(self), *self, buf@);
            }
        }
        write_size
    }
}

/// A mail written into an empty mailbox is what the next read gives back,
/// and the mailbox is empty again after that read.
pub proof fn lemma_write_then_read(pre: MailboxInner, mid: MailboxInner, post: MailboxInner, mail: Seq<u8>)
    requires
        pre.consistent(),
        pre.state() == MailboxStatus::EMPTY,
        after_write(pre, mid, mail),
        after_read(mid, post),
    ensures
        mid.slots()[mid.head_slot()] == mail,
        post.consistent(),
        post.mails() == Seq::<Seq<u8>>::empty(),
        post.state() == MailboxStatus::EMPTY,
{
    lemma_write_queue(pre, mid, mail);
    assert(pre.mails() =~= Seq::<Seq<u8>>::empty());
    assert(mid.mails() =~= seq![mail]);
    assert(mid.mails()[0] == mid.slots()[(mid.head_slot() + 0) % 16]);
    lemma_read_queue(mid, post);
    assert(post.mails() =~= Seq::<Seq<u8>>::empty());
}

/// A read of a mailbox that holds mail takes out the oldest one.
proof fn lemma_read_queue(pre: MailboxInner, post: MailboxInner)
    requires
        pre.consistent(),
        pre.state() != MailboxStatus::EMPTY,
        after_read(pre, post),
    ensures
        post.consistent(),
        post.mails() == pre.mails().drop_first(),
        pre.mails()[0] == pre.slots()[pre.head_slot()],
{
    let h = pre.head_slot();
    let t = pre.tail_slot();
    let c = pre.mail_count();
    assert(1 <= c <= 16);
    assert(t == (h + c) % 16);
    assert(post.mail_count() == c - 1);
    assert(pre.mails()[0] == pre.slots()[(h + 0) % 16]);
    assert forall|k: int| 0 <= k < c - 1 implies #[trigger] post.mails()[k] == pre.mails()[k + 1] by {
        assert((post.head_slot() + k) % 16 == (h + (k + 1)) % 16);
        assert((h + (k + 1)) % 16 != h);
    }
    assert(post.mails() =~= pre.mails().drop_first());
    assert forall|k: int| post.mail_count() <= k < 16 implies #[trigger] post.slots()[(
    post.head_slot() + k) % 16] == Seq::<u8>::empty() by {
        if k == 15 {
            assert((post.head_slot() + k) % 16 == h);
        } else {
            assert((post.head_slot() + k) % 16 == (h + (k + 1)) % 16);
            assert(pre.slots()[(h + (k + 1)) % 16] == Seq::<u8>::empty());
        }
    }
}

/// A write to a mailbox that is not full adds a mail behind the others.
proof fn lemma_write_queue(pre: MailboxInner, post: MailboxInner, mail: Seq<u8>)
    requires
        pre.consistent(),
        pre.state() != MailboxStatus::FULL,
        after_write(pre, post, mail),
    ensures
        post.consistent(),
        post.mails() == pre.mails().push(mail),
{
    let h = pre.head_slot();
    let t = pre.tail_slot();
    let c = pre.mail_count();
    assert(0 <= c <= 15);
    assert(t == (h + c) % 16);
    assert(pre.slots()[(h + c) % 16] == Seq::<u8>::empty());
    assert(pre.slots()[t] + mail =~= mail);
    assert(post.mail_count() == c + 1);
    assert forall|k: int| 0 <= k < c + 1 implies #[trigger] post.mails()[k] == pre.mails().push(
        mail,
    )[k] by {
        if k < c {
            assert((h + k) % 16 != t);
        }
    }
    assert(post.mails() =~= pre.mails().push(mail));
    assert forall|k: int| post.mail_count() <= k < 16 implies #[trigger] post.slots()[(
    post.head_slot() + k) % 16] == Seq::<u8>::empty() by {
        assert((h + k) % 16 != t);
    }
}

} // verus!
