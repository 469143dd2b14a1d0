//! Network loopback stack and the runtime's executor and timers.

use rustcore::ethernet::{LoopbackDriver, MacAddress};
use rustcore::executor::{SimpleExecutor, Task};
use rustcore::ip::{Ipv4Addr, LoopbackIp};
use rustcore::tcp::TcpHandle;
use rustcore::timers::TimerQueue;
use rustcore::tls::TlsSession;

#[test]
fn loopback_flow() {
    let driver = LoopbackDriver::new();
    let mut ip = LoopbackIp::new(
        driver,
        MacAddress { a: 0, b: 1, c: 2, d: 3, e: 4, f: 5 },
        Ipv4Addr { a: 127, b: 0, c: 0, d: 1 },
    );
    let mut handle = TcpHandle::new(&mut ip, (Ipv4Addr { a: 127, b: 0, c: 0, d: 1 }, 80));
    let data = b"hello";
    handle.send(data).unwrap();
    let mut buffer = vec![0u8; 16];
    let len = handle.recv(&mut buffer).unwrap();
    assert_eq!(&buffer[..len], data);
}

#[test]
fn tls_session_passes_bytes_through() {
    let driver = LoopbackDriver::new();
    let mut ip = LoopbackIp::new(
        driver,
        MacAddress { a: 0, b: 0, c: 0, d: 0, e: 0, f: 1 },
        Ipv4Addr { a: 127, b: 0, c: 0, d: 1 },
    );
    let handle = TcpHandle::new(&mut ip, (Ipv4Addr { a: 127, b: 0, c: 0, d: 1 }, 443));
    let mut session = TlsSession::new(handle);
    session.send(b"secret").unwrap();
    let mut buffer = vec![0u8; 8];
    let len = session.recv(&mut buffer).unwrap();
    assert_eq!(&buffer[..len], b"secret");
}

#[test]
fn executor_runs_tasks_in_order() {
    let mut exec = SimpleExecutor::new();
    exec.spawn(Task { func: "first" });
    exec.spawn(Task { func: "second" });
    let ran = exec.run();
    assert_eq!(ran, vec!["first", "second"]);
}

#[test]
fn schedule_and_poll() {
    let mut queue = TimerQueue::new();
    let id = queue.schedule(10);
    let fired = queue.poll(5);
    assert!(fired.is_empty());
    let fired = queue.poll(15);
    assert_eq!(fired, vec![id]);
}

#[test]
fn cancel_timer() {
    let mut queue = TimerQueue::new();
    let id = queue.schedule(20);
    assert!(queue.cancel(id));
    let fired = queue.poll(30);
    assert!(fired.is_empty());
}

#[test]
fn timers_fire_in_schedule_order() {
    let mut queue = TimerQueue::new();
    let a = queue.schedule(10);
    let b = queue.schedule(5);
    let c = queue.schedule(30);
    let fired = queue.poll(10);
    assert_eq!(fired, vec![a, b]);
    let fired = queue.poll(30);
    assert_eq!(fired, vec![c]);
    assert!(!queue.cancel(a));
}

#[test]
fn cancel_keeps_other_timers() {
    let mut queue = TimerQueue::new();
    let a = queue.schedule(10);
    let b = queue.schedule(20);
    let c = queue.schedule(30);
    assert!(queue.cancel(b));
    let fired = queue.poll(40);
    assert_eq!(fired, vec![a, c]);
}
