//! File system calls: `write`, `read`, `close` and the mailbox calls.
use vstd::prelude::*;
use crate::config::PAGE_SIZE;
use crate::mailbox::{after_read, after_write, read_len, MailboxInner, MailboxStatus, MAX_MAIL_LEN};
use crate::syscall::{
    all_answered, answers, lemma_not_refused, page_floor, pages_answer, query_total, refused, surely, MAP_R, MAP_U, MAP_W,
};

verus! {

/// The descriptor names an open file.
pub open spec fn open_fd<F>(fd_table: Seq<Option<F>>, fd: usize) -> bool {
    fd < fd_table.len() && fd_table[fd as int] is Some
}

/// The length that a mail call works with: at most `MAX_MAIL_LEN`.
pub open spec fn mail_len(len: usize) -> usize {
    if len < MAX_MAIL_LEN {
        len
    } else {
        MAX_MAIL_LEN
    }
}

/// A mail call works with `min(len, MAX_MAIL_LEN)` bytes: never more than
/// the caller passed, and all of them whenever they fit in one mail.
pub proof fn lemma_mail_len(len: usize)
    ensures
        mail_len(len) <= len,
        mail_len(len) <= MAX_MAIL_LEN,
        len <= MAX_MAIL_LEN ==> mail_len(len) == len,
        len > MAX_MAIL_LEN ==> mail_len(len) == MAX_MAIL_LEN,
{
}

/// Decides a write of the `len` bytes at user address `buf` to file `fd`.
/// Every page that holds a byte of the buffer must be user-readable and `fd`
/// must name an open file, else the answer is `Err(-1)` and nothing is
/// written. `Ok` gives the file whose own write of those bytes gives the
/// answer.
pub fn sys_write<'a, F, M: Fn(usize, u8) -> bool>(
    fd_table: &'a Vec<Option<F>>,
    fd: usize,
    buf: usize,
    len: usize,
    is_mapped: &M,
) -> (r: Result<&'a F, isize>)
    requires
        buf + len <= usize::MAX,
        query_total(*is_mapped, MAP_U | MAP_R),
    ensures
        !open_fd(fd_table@, fd) ==> answers(r, -1),
        refused(*is_mapped, page_floor(buf as int), buf + len, MAP_U | MAP_R) ==> answers(r, -1),
        r is Err ==> answers(r, -1),
        r matches Ok(f) ==> {
            &&& all_answered(*is_mapped, page_floor(buf as int), buf + len, MAP_U | MAP_R, true)
            &&& open_fd(fd_table@, fd)
            &&& *f == fd_table@[fd as int]->0
        },
        surely(*is_mapped, page_floor(buf as int), buf + len, MAP_U | MAP_R, true) && open_fd(
            fd_table@,
            fd,
        ) ==> r is Ok,
{
    let start = buf / PAGE_SIZE * PAGE_SIZE;
    let end = buf + len;
    let ok = pages_answer(start, end, MAP_U | MAP_R, true, is_mapped);
    if !ok {
        return Err(-1);
    }
    proof {
        lemma_not_refused(*is_mapped, start as int, end as int, MAP_U | MAP_R);
    }
    if fd >= fd_table.len() {
        return Err(-1);
    }
    match &fd_table[fd] {
        Some(file) => Ok(file),
        None => Err(-1),
    }
}

/// Decides a read from file `fd` into the `len` bytes at user address `buf`.
/// Every page that holds a byte of the buffer must be user-writable and `fd`
/// must name an open file, else the answer is `Err(-1)` and nothing is read.
/// `Ok` gives the file whose own read into those bytes gives the answer.
pub fn sys_read<'a, F, M: Fn(usize, u8) -> bool>(
    fd_table: &'a Vec<Option<F>>,
    fd: usize,
    buf: usize,
    len: usize,
    is_mapped: &M,
) -> (r: Result<&'a F, isize>)
    requires
        buf + len <= usize::MAX,
        query_total(*is_mapped, MAP_U | MAP_W),
    ensures
        !open_fd(fd_table@, fd) ==> answers(r, -1),
        refused(*is_mapped, page_floor(buf as int), buf + len, MAP_U | MAP_W) ==> answers(r, -1),
        r is Err ==> answers(r, -1),
        r matches Ok(f) ==> {
            &&& all_answered(*is_mapped, page_floor(buf as int), buf + len, MAP_U | MAP_W, true)
            &&& open_fd(fd_table@, fd)
            &&& *f == fd_table@[fd as int]->0
        },
        surely(*is_mapped, page_floor(buf as int), buf + len, MAP_U | MAP_W, true) && open_fd(
            fd_table@,
            fd,
        ) ==> r is Ok,
{
    let start = buf / PAGE_SIZE * PAGE_SIZE;
    let end = buf + len;
    let ok = pages_answer(start, end, MAP_U | MAP_W, true, is_mapped);
    if !ok {
        return Err(-1);
    }
    proof {
        lemma_not_refused(*is_mapped, start as int, end as int, MAP_U | MAP_W);
    }
    if fd >= fd_table.len() {
        return Err(-1);
    }
    match &fd_table[fd] {
        Some(file) => Ok(file),
        None => Err(-1),
    }
}

/// Closes file `fd`: `-1` if it is not open, else its entry is cleared and
/// the answer is `0`.
pub fn sys_close<F>(fd_table: &mut Vec<Option<F>>, fd: usize) -> (r: isize)
    ensures
        !open_fd(old(fd_table)@, fd) ==> r == -1 && final(fd_table)@ == old(fd_table)@,
        open_fd(old(fd_table)@, fd) ==> r == 0 && final(fd_table)@ == old(fd_table)@.update(
            fd as int,
            None,
        ),
{
    if fd >= fd_table.len() {
        return -1;
    }
    if fd_table[fd].is_none() {
        return -1;
    }
    fd_table.set(fd, None);
    0
}

/// Reads the oldest mail of `mailbox` into the user buffer at `buf`, at
/// most `len` (and at most `MAX_MAIL_LEN`) bytes. A length of 0 only asks
/// whether a mail waits (`0`) or not (`-1`). Every page that holds a byte of
/// the buffer must be user-writable. Returns the answer and the bytes to copy
/// to the start of the user buffer.
pub fn sys_mailread<M: Fn(usize, u8) -> bool>(
    mailbox: &mut MailboxInner,
    buf: usize,
    len: usize,
    is_mapped: &M,
) -> (r: (isize, Vec<u8>))
    requires
        old(mailbox).wf(),
        buf + mail_len(len) <= usize::MAX,
        query_total(*is_mapped, MAP_U | MAP_W),
    ensures
        mail_len(len) == 0 ==> {
            &&& *final(mailbox) == *old(mailbox)
            &&& r.1@ == Seq::<u8>::empty()
            &&& r.0 == if old(mailbox).state() == MailboxStatus::EMPTY {
                -1isize
            } else {
                0
            }
        },
        mail_len(len) > 0 && refused(*is_mapped, page_floor(buf as int), buf + mail_len(len), MAP_U
            | MAP_W) ==> r.0 == -1,
        mail_len(len) > 0 && r.0 == -1 ==> {
            &&& *final(mailbox) == *old(mailbox)
            &&& r.1@ == Seq::<u8>::empty()
            &&& !surely(
                *is_mapped,
                page_floor(buf as int),
                buf + mail_len(len),
                MAP_U | MAP_W,
                true,
            )
        },
        mail_len(len) > 0 && r.0 != -1 ==> {
            let n = read_len(*old(mailbox), mail_len(len) as int);
            &&& all_answered(
                *is_mapped,
                page_floor(buf as int),
                buf + mail_len(len),
                MAP_U | MAP_W,
                true,
            )
            &&& r.0 == n
            &&& r.1@ == old(mailbox).slots()[old(mailbox).head_slot()].subrange(0, n)
            &&& after_read(*old(mailbox), *final(mailbox))
        },
{
    let len = if len < MAX_MAIL_LEN {
        len
    } else {
        MAX_MAIL_LEN
    };
    if len == 0 {
        if !mailbox.readable() {
            return (-1, Vec::new());
        } else {
            return (0, Vec::new());
        }
    }
    let start = buf / PAGE_SIZE * PAGE_SIZE;
    let end = buf + len;
    let ok = pages_answer(start, end, MAP_U | MAP_W, true, is_mapped);
    if !ok {
        return (-1, Vec::new());
    }
    proof {
        lemma_not_refused(*is_mapped, start as int, end as int, MAP_U | MAP_W);
    }
    let mut data: Vec<u8> = Vec::new();
    let mut i: usize = 0;
    while i < len
        invariant
            i <= len,
            data@.len() == i,
        decreases len - i,
    {
        data.push(0);
        i = i + 1;
    }
    let n = mailbox.read_mail(&mut data);
    data.truncate(n);
    proof {
        assert(data@ =~= old(mailbox).slots()[old(mailbox).head_slot()].subrange(0, n as int));
    }
    (n as isize, data)
}

/// The mailbox that a mail to process `pid` goes to: the sender's own, `own`,
/// when `pid` is the sender's pid `current`; else the one that `find` gives
/// for `pid`, `None` when that process has none.
pub fn mail_target<B, L: FnOnce(usize) -> Option<B>>(
    current: usize,
    own: B,
    pid: usize,
    find: L,
) -> (r: Option<B>)
    requires
        pid != current ==> call_requires(find, (pid,)),
    ensures
        pid == current ==> r == Some(own),
        pid != current ==> call_ensures(find, (pid,), r),
{
    if pid == current {
        Some(own)
    } else {
        find(pid)
    }
}

/// Decides a mail of the `len` bytes (at most `MAX_MAIL_LEN`) at user
/// address `buf` to the mailbox `target`, `None` when the receiver has no
/// mailbox: then the answer is `Err(-1)`. A length of 0 only asks whether the
/// mailbox has room (`Err(0)`) or not (`Err(-1)`). Every page that holds a
/// byte of the buffer must be user-readable, else the answer is `Err(-1)`.
/// On `Err` nothing is read or sent. `Ok(n)` asks for the `n` bytes at `buf`
/// to be sent with `deliver_mail`.
pub fn sys_mailwrite<M: Fn(usize, u8) -> bool>(
    target: Option<&MailboxInner>,
    buf: usize,
    len: usize,
    is_mapped: &M,
) -> (r: Result<usize, isize>)
    requires
        buf + mail_len(len) <= usize::MAX,
        query_total(*is_mapped, MAP_U | MAP_R),
    ensures
        target is None ==> answers(r, -1),
        target is Some && mail_len(len) == 0 ==> answers(
            r,
            if target->0.state() == MailboxStatus::FULL {
                -1
            } else {
                0
            },
        ),
        target is Some && mail_len(len) > 0 && refused(
            *is_mapped,
            page_floor(buf as int),
            buf + mail_len(len),
            MAP_U | MAP_R,
        ) ==> answers(r, -1),
        target is Some && mail_len(len) > 0 && r is Err ==> answers(r, -1),
        r matches Ok(n) ==> {
            &&& target is Some
            &&& n == mail_len(len) > 0
            &&& all_answered(
                *is_mapped,
                page_floor(buf as int),
                buf + mail_len(len),
                MAP_U | MAP_R,
                true,
            )
        },
        target is Some && mail_len(len) > 0 && surely(
            *is_mapped,
            page_floor(buf as int),
            buf + mail_len(len),
            MAP_U | MAP_R,
            true,
        ) ==> r is Ok,
{
    let mb = match target {
        Some(mb) => mb,
        None => return Err(-1),
    };
    let len = if len < MAX_MAIL_LEN {
        len
    } else {
        MAX_MAIL_LEN
    };
    if len == 0 {
        if !mb.writable() {
            return Err(-1);
        } else {
            return Err(0);
        }
    }
    let start = buf / PAGE_SIZE * PAGE_SIZE;
    let end = buf + len;
    let ok = pages_answer(start, end, MAP_U | MAP_R, true, is_mapped);
    if !ok {
        return Err(-1);
    }
    proof {
        lemma_not_refused(*is_mapped, start as int, end as int, MAP_U | MAP_R);
    }
    Ok(len)
}

/// Sends `data`, the bytes that `sys_mailwrite` asked for, as one mail to
/// `mailbox`; the answer is the number of bytes sent.
pub fn deliver_mail(mailbox: &mut MailboxInner, data: &Vec<u8>) -> (r: isize)
    requires
        old(mailbox).wf(),
        data@.len() <= MAX_MAIL_LEN,
    ensures
        r == data@.len(),
        after_write(*old(mailbox), *final(mailbox), data@),
        old(mailbox).consistent() && old(mailbox).state() != MailboxStatus::FULL ==> {
            &&& final(mailbox).consistent()
            &&& final(mailbox).mails() == old(mailbox).mails().push(data@)
        },
{
    let n = mailbox.write_mail(data);
    n as isize
}

} // verus!
