use os_core::config::CLOCK_FREQ;
use os_core::mailbox::MailboxInner;
use os_core::timer::{set_next_trigger, time_val_from_clock};

#[test]
fn new_mailbox_is_empty_and_writable() {
    let m = MailboxInner::new();
    assert!(!m.readable());
    assert!(m.writable());
}

#[test]
fn written_mail_is_read_back() {
    let mut m = MailboxInner::new();
    assert_eq!(m.write_mail(&b"hello".to_vec()), 5);
    assert!(m.readable());
    let mut buf = vec![0xffu8; 8];
    assert_eq!(m.read_mail(&mut buf), 5);
    assert_eq!(buf, vec![b'h', b'e', b'l', b'l', b'o', 0xff, 0xff, 0xff]);
    assert!(!m.readable());
    assert!(m.writable());
}

#[test]
fn read_into_short_buffer_truncates_and_drops_the_rest() {
    let mut m = MailboxInner::new();
    m.write_mail(&b"abcdef".to_vec());
    m.write_mail(&b"xyz".to_vec());
    let mut buf = vec![0u8; 2];
    assert_eq!(m.read_mail(&mut buf), 2);
    assert_eq!(buf, b"ab".to_vec());
    let mut buf = vec![0u8; 10];
    assert_eq!(m.read_mail(&mut buf), 3);
    assert_eq!(&buf[..3], b"xyz");
}

#[test]
fn mails_come_out_in_the_order_written() {
    let mut m = MailboxInner::new();
    for i in 0..5u8 {
        m.write_mail(&vec![i; (i as usize) + 1]);
    }
    for i in 0..5u8 {
        let mut buf = vec![0u8; 16];
        let n = m.read_mail(&mut buf);
        assert_eq!(n, (i as usize) + 1);
        assert!(buf[..n].iter().all(|&b| b == i));
    }
    assert!(!m.readable());
}

#[test]
fn sixteen_mails_fill_the_mailbox() {
    let mut m = MailboxInner::new();
    for i in 0..16u8 {
        assert!(m.writable());
        m.write_mail(&vec![i]);
    }
    assert!(!m.writable());
    assert!(m.readable());
    let mut buf = vec![0u8; 1];
    assert_eq!(m.read_mail(&mut buf), 1);
    assert_eq!(buf, vec![0]);
    assert!(m.writable());
}

#[test]
fn empty_mail_is_a_mail() {
    let mut m = MailboxInner::new();
    assert_eq!(m.write_mail(&Vec::new()), 0);
    assert!(m.readable());
    let mut buf = vec![9u8; 4];
    assert_eq!(m.read_mail(&mut buf), 0);
    assert_eq!(buf, vec![9u8; 4]);
    assert!(!m.readable());
}

#[test]
fn time_val_splits_seconds_and_microseconds() {
    let t = time_val_from_clock(3 * CLOCK_FREQ + 120);
    assert_eq!(t.sec(), 3);
    assert_eq!(t.usec(), 10);
    let t = time_val_from_clock(0);
    assert_eq!((t.sec(), t.usec()), (0, 0));
    // The tick unit is CLOCK_FREQ / 1_000_000 = 12 ticks, rounded down.
    let t = time_val_from_clock(CLOCK_FREQ - 1);
    assert_eq!(t.sec(), 0);
    assert_eq!(t.usec(), (CLOCK_FREQ - 1) / 12);
}

#[test]
fn next_trigger_is_one_tick_period_later() {
    assert_eq!(set_next_trigger(1000), 1000 + CLOCK_FREQ / 100);
    assert_eq!(set_next_trigger(0), 125000);
}
