use os_core::mailbox::MailboxInner;
use os_core::manager::TaskManager;
use os_core::stride_scheduler::{StrideScheduler, BIG_STRIDE};
use os_core::syscall::fs::{deliver_mail, mail_target, sys_close, sys_mailread, sys_mailwrite, sys_read, sys_write};
use os_core::syscall::memory::{mmap_done, sys_mmap};
use os_core::syscall::process::{
    sys_exec, sys_fork, sys_get_time, sys_getpid, sys_set_priority, sys_spawn, sys_waitpid, NewTask,
};
use os_core::syscall::{MAP_R, MAP_U, MAP_W, MAP_X};
use os_core::task::{exit_task, TaskStatus};
use std::cell::RefCell;

#[test]
fn close_open_then_closed_fd() {
    let mut table = vec![Some(10u32), None, Some(12)];
    assert_eq!(sys_close(&mut table, 1), -1);
    assert_eq!(sys_close(&mut table, 3), -1);
    assert_eq!(sys_close(&mut table, 2), 0);
    assert_eq!(table, vec![Some(10), None, None]);
    assert_eq!(sys_close(&mut table, 2), -1);
}

#[test]
fn write_checks_pages_then_fd() {
    let table = vec![Some("console"), None];
    let asked = RefCell::new(Vec::new());
    let all_mapped = |va: usize, perm: u8| {
        asked.borrow_mut().push((va, perm));
        true
    };
    assert_eq!(sys_write(&table, 0, 0x1010, 0x2000, &all_mapped), Ok(&"console"));
    // The scan starts at the page of `buf` and reaches the page of its last byte.
    assert_eq!(
        *asked.borrow(),
        vec![(0x1000, MAP_U | MAP_R), (0x2000, MAP_U | MAP_R), (0x3000, MAP_U | MAP_R)]
    );
    assert_eq!(sys_write(&table, 1, 0x1000, 4, &all_mapped), Err(-1));
    assert_eq!(sys_write(&table, 2, 0x1000, 4, &all_mapped), Err(-1));
    let none_mapped = |_va: usize, _perm: u8| false;
    assert_eq!(sys_write(&table, 0, 0x1000, 4, &none_mapped), Err(-1));
}

#[test]
fn write_refuses_a_buffer_that_runs_into_an_unmapped_page() {
    let table = vec![Some(0u8)];
    let first_page_only = |va: usize, _perm: u8| va / 4096 == 1;
    assert_eq!(sys_write(&table, 0, 0x1ff0, 0x20, &first_page_only), Err(-1));
    // The same buffer inside the mapped page is written.
    assert_eq!(sys_write(&table, 0, 0x1f00, 0x20, &first_page_only), Ok(&0));
}

#[test]
fn read_asks_for_writable_pages() {
    let table = vec![Some(1u8)];
    let only_writable = |_va: usize, perm: u8| perm == MAP_U | MAP_W;
    assert_eq!(sys_read(&table, 0, 0x5000, 10, &only_writable), Ok(&1));
    let only_readable = |_va: usize, perm: u8| perm == MAP_U | MAP_R;
    assert_eq!(sys_read(&table, 0, 0x5000, 10, &only_readable), Err(-1));
    let first_page_only = |va: usize, _perm: u8| va / 4096 == 5;
    assert_eq!(sys_read(&table, 0, 0x5ffc, 8, &first_page_only), Err(-1));
    let empty: Vec<Option<u8>> = vec![None];
    assert_eq!(sys_read(&empty, 0, 0x5000, 10, &only_writable), Err(-1));
}

#[test]
fn mail_write_then_read() {
    let mut mb = MailboxInner::new();
    let mapped = |_va: usize, _perm: u8| true;
    assert_eq!(sys_mailread(&mut mb, 0x1000, 0, &mapped).0, -1);
    assert_eq!(sys_mailwrite(Some(&mb), 0x1000, 0, &mapped), Err(0));
    assert_eq!(sys_mailwrite(Some(&mb), 0x1000, 3, &mapped), Ok(3));
    assert_eq!(deliver_mail(&mut mb, &b"abc".to_vec()), 3);
    assert_eq!(sys_mailread(&mut mb, 0x1000, 0, &mapped).0, 0);
    let (n, data) = sys_mailread(&mut mb, 0x1000, 100, &mapped);
    assert_eq!(n, 3);
    assert_eq!(data, b"abc".to_vec());
}

#[test]
fn mail_length_is_capped() {
    let mut mb = MailboxInner::new();
    let mapped = |_va: usize, _perm: u8| true;
    assert_eq!(sys_mailwrite(Some(&mb), 0x1000, 1000, &mapped), Ok(256));
    assert_eq!(deliver_mail(&mut mb, &vec![7u8; 256]), 256);
    let (n, data) = sys_mailread(&mut mb, 0x1000, 1000, &mapped);
    assert_eq!(n, 256);
    assert_eq!(data.len(), 256);
}

#[test]
fn mail_calls_refuse_unmapped_buffers() {
    let mut mb = MailboxInner::new();
    let unmapped = |_va: usize, _perm: u8| false;
    assert_eq!(sys_mailwrite(Some(&mb), 0x1000, 5, &unmapped), Err(-1));
    assert!(!mb.readable());
    deliver_mail(&mut mb, &vec![1u8; 5]);
    let (r, data) = sys_mailread(&mut mb, 0x1000, 5, &unmapped);
    assert_eq!(r, -1);
    assert!(data.is_empty());
    assert!(mb.readable());
    let first_page_only = |va: usize, _perm: u8| va / 4096 == 1;
    let (r, _) = sys_mailread(&mut mb, 0x1ffe, 5, &first_page_only);
    assert_eq!(r, -1);
    assert!(mb.readable());
    assert_eq!(sys_mailwrite(Some(&mb), 0x1ffe, 5, &first_page_only), Err(-1));
}

#[test]
fn mail_to_a_process_without_mailbox_is_refused() {
    let mapped = |_va: usize, _perm: u8| true;
    assert_eq!(sys_mailwrite(None, 0x1000, 5, &mapped), Err(-1));
    assert_eq!(sys_mailwrite(None, 0x1000, 0, &mapped), Err(-1));
}

#[test]
fn mail_write_to_full_mailbox_with_zero_length() {
    let mut mb = MailboxInner::new();
    let mapped = |_va: usize, _perm: u8| true;
    for _ in 0..16 {
        deliver_mail(&mut mb, &vec![0u8; 1]);
    }
    assert_eq!(sys_mailwrite(Some(&mb), 0, 0, &mapped), Err(-1));
}

#[test]
fn mmap_validates_and_rounds_to_pages() {
    let unmapped = |_va: usize, _perm: u8| false;
    let area = sys_mmap(0x10000, 5000, 0b011, &unmapped).ok().unwrap();
    assert_eq!((area.start, area.end, area.perm, area.size), (0x10000, 0x10000 + 5000, MAP_U | MAP_R | MAP_W, 8192));
    assert_eq!(mmap_done(&area, true), 8192);
    assert_eq!(mmap_done(&area, false), -1);
    assert_eq!(sys_mmap(0x10001, 10, 1, &unmapped).err(), Some(-1));
    assert_eq!(sys_mmap(0x10000, 10, 0, &unmapped).err(), Some(-1));
    assert_eq!(sys_mmap(0x10000, 10, 8, &unmapped).err(), Some(-1));
    let second_page_mapped = |va: usize, _perm: u8| va == 0x11000;
    assert_eq!(sys_mmap(0x10000, 0x2000, 4, &second_page_mapped).err(), Some(-1));
    let area = sys_mmap(0, 4096, 7, &unmapped).ok().unwrap();
    assert_eq!((area.perm, area.size), (MAP_U | MAP_R | MAP_W | MAP_X, 4096));
}

#[test]
fn set_priority_refuses_low_priorities() {
    let mut s = StrideScheduler::new();
    s.init_sched_block(5);
    let mut b = s.get_next_sched_block().unwrap();
    assert_eq!(sys_set_priority(&mut b, 1), -1);
    assert_eq!(b.pass(), BIG_STRIDE / 16);
    assert_eq!(sys_set_priority(&mut b, 3), 3);
    assert_eq!(b.pass(), BIG_STRIDE / 3);
}

#[test]
fn get_time_checks_the_buffer() {
    let mapped = |_va: usize, _perm: u8| true;
    let (r, t) = sys_get_time(0x2000, 25_000_000 + 24, &mapped);
    assert_eq!(r, 0);
    let t = t.unwrap();
    assert_eq!((t.sec(), t.usec()), (2, 2));
    let unmapped = |_va: usize, _perm: u8| false;
    let (r, t) = sys_get_time(0x2000, 0, &unmapped);
    assert_eq!(r, -1);
    assert!(t.is_none());
}

#[test]
fn process_calls_report_outcomes() {
    assert_eq!(sys_getpid(42), 42);
    let mut children: Vec<&str> = Vec::new();
    let mut manager: TaskManager<&str> = TaskManager::new();
    let r = sys_fork(1, &mut children, &mut manager, || Some(NewTask { pid: 7, child: "seven", queued: "seven" }));
    assert_eq!(r, 7);
    assert_eq!(children, vec!["seven"]);
    assert!(manager.contains_task(7));
    assert_eq!(manager.len(), 1);
    assert_eq!(sys_fork(1, &mut children, &mut manager, || None), -1);
    // A pid that is queued already, or the parent's own, is not taken.
    assert_eq!(sys_fork(1, &mut children, &mut manager, || Some(NewTask { pid: 7, child: "x", queued: "x" })), -1);
    assert_eq!(sys_fork(1, &mut children, &mut manager, || Some(NewTask { pid: 1, child: "x", queued: "x" })), -1);
    assert_eq!(children, vec!["seven"]);
    assert_eq!(manager.len(), 1);

    let mut image = 5u8;
    assert_eq!(sys_exec(Some("app"), &mut image, |_: &&str| Some(1u8), |d: u8| Some(d + 10)), 0);
    assert_eq!(image, 11);
    assert_eq!(sys_exec(Some("app"), &mut image, |_: &&str| Some(1u8), |_: u8| None), -1);
    assert_eq!(sys_exec(Some("app"), &mut image, |_: &&str| None::<u8>, |d: u8| Some(d)), -1);
    assert_eq!(sys_exec(None::<&str>, &mut image, |_: &&str| Some(1u8), |d: u8| Some(d)), -1);
    assert_eq!(image, 11);

    let r = sys_spawn(Some("app"), 1, &mut children, &mut manager, |_: &&str| {
        Some(NewTask { pid: 9, child: "nine", queued: "nine" })
    });
    assert_eq!(r, 9);
    assert_eq!(children, vec!["seven", "nine"]);
    assert!(manager.contains_task(9));
    assert_eq!(sys_spawn(Some("app"), 1, &mut children, &mut manager, |_: &&str| None), -1);
    assert_eq!(
        sys_spawn(None::<&str>, 1, &mut children, &mut manager, |_: &&str| Some(NewTask { pid: 3, child: "x", queued: "x" })),
        -1
    );
    assert_eq!(children, vec!["seven", "nine"]);
    assert_eq!(manager.len(), 2);
}

#[test]
fn waitpid_outcomes() {
    let mapped = |_va: usize, _perm: u8| true;
    let unmapped = |_va: usize, _perm: u8| false;
    let states = vec![(4usize, TaskStatus::Ready, 0i32), (5, TaskStatus::Zombie, 50), (6, TaskStatus::Zombie, 60)];
    let mut children = vec!["four", "five", "six"];
    assert_eq!(sys_waitpid(&mut children, &states, -1, 0x3000, &unmapped), (-3, None));
    assert_eq!(sys_waitpid(&mut children, &states, 9, 0x3000, &mapped), (-1, None));
    assert_eq!(sys_waitpid(&mut children, &states, 4, 0x3000, &mapped), (-2, None));
    assert_eq!(children, vec!["four", "five", "six"]);
    assert_eq!(sys_waitpid(&mut children, &states, 6, 0x3000, &mapped), (6, Some(("six", 60))));
    assert_eq!(children, vec!["four", "five"]);
    let mut children = vec!["four", "five", "six"];
    assert_eq!(sys_waitpid(&mut children, &states, -1, 0x3008, &mapped), (5, Some(("five", 50))));
    assert_eq!(children, vec!["four", "six"]);
    let mut none: Vec<&str> = Vec::new();
    assert_eq!(sys_waitpid(&mut none, &Vec::new(), -1, 0x3000, &mapped), (-1, None));
}

#[test]
fn waitpid_checks_the_page_of_the_exit_code_pointer() {
    let third_page_only = |va: usize, _perm: u8| va / 4096 == 3;
    let states = vec![(5usize, TaskStatus::Zombie, 1i32)];
    let mut children = vec![5u8];
    assert_eq!(sys_waitpid(&mut children, &states, 5, 0x4000, &third_page_only), (-3, None));
    assert_eq!(children, vec![5]);
    // A pointer 2 bytes before the unmapped page is checked by its own page.
    assert_eq!(sys_waitpid(&mut children, &states, 9, 0x3ffe, &third_page_only), (-1, None));
    assert_eq!(sys_waitpid(&mut children, &states, 5, 0x3ff0, &third_page_only), (5, Some((5, 1))));
    assert!(children.is_empty());
}

#[test]
fn mail_goes_to_own_or_registered_mailbox() {
    let registry = |pid: usize| if pid == 7 { Some("seven") } else { None };
    assert_eq!(mail_target(3, "own", 3, registry), Some("own"));
    assert_eq!(mail_target(3, "own", 7, registry), Some("seven"));
    assert_eq!(mail_target(3, "own", 8, registry), None);
}

#[test]
fn exit_makes_a_zombie_and_hands_children_to_init() {
    let mut status = TaskStatus::Running;
    let mut code = 0;
    let mut children = vec![4usize, 5];
    let mut init_children = vec![2usize];
    exit_task(&mut status, &mut code, &mut children, &mut init_children, -7);
    assert!(status == TaskStatus::Zombie);
    assert_eq!(code, -7);
    assert!(children.is_empty());
    assert_eq!(init_children, vec![2, 4, 5]);
}
