use netsim_embed::machine::{
    control_plan, drain_step, id_map_line, is_event_line, reader_step, writer_continues,
    DrainStep, IfaceAction, IfaceCtrl, Machine, MachineId, Namespace, ReaderStep, TaskPoll,
};
use netsim_embed::packet::Packet;

#[test]
fn machine_id_is_named() {
    assert_eq!(MachineId(0).to_string(), "Machine-#0");
    assert_eq!(MachineId(7).to_string(), "Machine-#7");
    assert_eq!(MachineId(1234567890).to_string(), "Machine-#1234567890");
}

#[test]
fn namespace_is_a_path() {
    assert_eq!(Namespace::new(1, 2).to_string(), "/proc/1/task/2/ns/net");
    assert_eq!(Namespace::new(4321, 98765).to_string(), "/proc/4321/task/98765/ns/net");
    assert_eq!(
        Namespace::new(i32::MAX, i64::MAX).to_string(),
        format!("/proc/{}/task/{}/ns/net", i32::MAX, i64::MAX)
    );
    assert_eq!(
        Namespace::new(-5, i64::MIN).to_string(),
        format!("/proc/-5/task/{}/ns/net", i64::MIN)
    );
}

#[test]
fn id_map_lines() {
    assert_eq!(id_map_line(1000), "0 1000 1\n");
    assert_eq!(id_map_line(0), "0 0 1\n");
    assert_eq!(id_map_line(u32::MAX), "0 4294967295 1\n");
}

fn names(actions: &[IfaceAction]) -> Vec<String> {
    actions
        .iter()
        .map(|a| match a {
            IfaceAction::PutUp => "up".to_string(),
            IfaceAction::PutDown => "down".to_string(),
            IfaceAction::SetAddr(addr, mask) => format!("addr {:#x}/{}", addr, mask),
            IfaceAction::AddRoute(route) => format!(
                "route {:#x}/{} {:?}",
                route.dest().base_addr(),
                route.dest().netmask_prefix_length(),
                route.gateway()
            ),
            IfaceAction::Acknowledge => "ack".to_string(),
        })
        .collect()
}

#[test]
fn control_requests_become_interface_steps() {
    let (a, go_on) = control_plan(IfaceCtrl::Up);
    assert_eq!((names(&a), go_on), (vec!["up".to_string()], true));
    let (a, go_on) = control_plan(IfaceCtrl::Down);
    assert_eq!((names(&a), go_on), (vec!["down".to_string()], true));
    let (a, go_on) = control_plan(IfaceCtrl::SetAddr(0x0102_0304, 24));
    assert_eq!(
        names(&a),
        vec!["addr 0x1020304/24", "up", "route 0x0/0 None", "ack"]
    );
    assert!(go_on);
    let (a, go_on) = control_plan(IfaceCtrl::Exit);
    assert!(a.is_empty());
    assert!(!go_on);
}

fn udp_packet() -> Vec<u8> {
    let mut v = vec![
        0x45, 0, 0, 32, 0, 0, 0, 0, 64, 17, 0, 0, 192, 168, 0, 1, 192, 168, 0, 199,
    ];
    v.extend_from_slice(&[0x30, 0x39, 0xd4, 0x31, 0, 12, 0, 0]);
    v.extend_from_slice(b"test");
    v
}

#[test]
fn reader_passes_ipv4_on() {
    let mut buf = vec![0u8; 1514];
    assert!(matches!(reader_step(&buf, 0), ReaderStep::Stop));
    // an IPv6 packet
    buf[0] = 0x60;
    assert!(matches!(reader_step(&buf, 40), ReaderStep::Skip));
    // a UDP packet gets its checksums
    let p = udp_packet();
    buf[..p.len()].copy_from_slice(&p);
    let mut expected = Packet::new(p.clone()).unwrap();
    expected.set_checksum();
    match reader_step(&buf, p.len()) {
        ReaderStep::Forward(bytes) => {
            assert_eq!(bytes, expected.into_bytes());
            assert_eq!(&bytes[26..28], &[0x91, 0x78]);
        }
        other => panic!("{:?}", other),
    }
    // an IPv4 packet that carries something else passes unchanged
    buf[9] = 1;
    match reader_step(&buf, p.len()) {
        ReaderStep::Forward(bytes) => assert_eq!(bytes, buf[..p.len()].to_vec()),
        other => panic!("{:?}", other),
    }
    // even a single byte
    match reader_step(&buf, 1) {
        ReaderStep::Forward(bytes) => assert_eq!(bytes, vec![0x45]),
        other => panic!("{:?}", other),
    }
}

#[test]
fn writer_ends_on_empty_write() {
    assert!(writer_continues(Some(20)));
    assert!(writer_continues(None));
    assert!(!writer_continues(Some(0)));
}

#[test]
fn event_lines_begin_with_an_angle() {
    assert!(is_event_line("<started"));
    assert!(is_event_line("<"));
    assert!(!is_event_line(""));
    assert!(!is_event_line(" <started"));
    assert!(!is_event_line(">start"));
    assert!(!is_event_line("é<"));
}

#[test]
fn draining_after_the_kill() {
    assert_eq!(drain_step(true, Some(TaskPoll::Pending), Some(TaskPoll::Pending)), DrainStep::TimedOut);
    assert_eq!(drain_step(true, None, None), DrainStep::TimedOut);
    assert_eq!(drain_step(false, None, None), DrainStep::Finished);
    assert_eq!(drain_step(false, None, Some(TaskPoll::Pending)), DrainStep::Wait { event: false, stderr: true });
    assert_eq!(drain_step(false, None, Some(TaskPoll::Done)), DrainStep::Finished);
    assert_eq!(drain_step(false, None, Some(TaskPoll::Failed)), DrainStep::StderrFailed);
    assert_eq!(drain_step(false, Some(TaskPoll::Pending), None), DrainStep::Wait { event: true, stderr: false });
    assert_eq!(drain_step(false, Some(TaskPoll::Done), None), DrainStep::Finished);
    assert_eq!(drain_step(false, Some(TaskPoll::Failed), None), DrainStep::EventFailed);
    assert_eq!(drain_step(false, Some(TaskPoll::Failed), Some(TaskPoll::Failed)), DrainStep::EventFailed);
    assert_eq!(drain_step(false, Some(TaskPoll::Done), Some(TaskPoll::Failed)), DrainStep::StderrFailed);
    assert_eq!(drain_step(false, Some(TaskPoll::Done), Some(TaskPoll::Done)), DrainStep::Finished);
    assert_eq!(drain_step(false, Some(TaskPoll::Done), Some(TaskPoll::Pending)), DrainStep::Wait { event: false, stderr: true });
    assert_eq!(drain_step(false, Some(TaskPoll::Pending), Some(TaskPoll::Done)), DrainStep::Wait { event: true, stderr: false });
    assert_eq!(
        drain_step(false, Some(TaskPoll::Pending), Some(TaskPoll::Pending)),
        DrainStep::Wait { event: true, stderr: true }
    );
}

fn machine() -> Machine<(char, u32)> {
    Machine::new(MachineId(3), Namespace::new(10, 11))
}

fn is_b(e: &(char, u32)) -> Option<u32> {
    if e.0 == 'B' {
        Some(e.1)
    } else {
        None
    }
}

#[test]
fn new_machine_handle() {
    let mut m = machine();
    assert_eq!(m.id(), MachineId(3));
    assert_eq!(m.namespace(), Namespace::new(10, 11));
    assert_eq!((m.addr(), m.mask()), (0, 32));
    m.set_addr(0x0a00_0002, 8);
    assert_eq!((m.addr(), m.mask()), (0x0a00_0002, 8));
    assert_eq!(m.recv(), None);
    assert_eq!(m.buffered(), 0);
}

#[test]
fn selective_receive() {
    // Events arrive, tagged A and B in turn, while B is selected.
    let mut m = machine();
    assert_eq!(m.select(&is_b), None);
    assert_eq!(m.select_arrived(('A', 1), &is_b), None);
    assert_eq!(m.select_arrived(('B', 2), &is_b), Some(2));
    // the first event was passed over and comes first now
    assert_eq!(m.recv(), Some(('A', 1)));
    assert_eq!(m.recv(), None);
    assert_eq!(m.select_arrived(('A', 3), &is_b), None);
    assert_eq!(m.recv(), Some(('A', 3)));
}

#[test]
fn select_takes_the_first_match_from_the_buffer() {
    let mut m = machine();
    let never = |_: &(char, u32)| -> Option<u32> { None };
    for e in [('A', 1), ('B', 2), ('A', 3), ('B', 4)] {
        assert_eq!(m.select_arrived(e, &never), None);
    }
    assert_eq!(m.buffered(), 4);
    assert_eq!(m.select(&is_b), Some(2));
    assert_eq!(m.select(&is_b), Some(4));
    assert_eq!(m.select(&is_b), None);
    assert_eq!(m.drain(), vec![('A', 1), ('A', 3)]);
    assert_eq!(m.buffered(), 0);
}

#[test]
fn select_draining_discards_what_it_passes_over() {
    let mut m = machine();
    let never = |_: &(char, u32)| -> Option<u32> { None };
    for e in [('A', 1), ('B', 2), ('A', 3), ('B', 4)] {
        m.select_arrived(e, &never);
    }
    let b = |e: (char, u32)| -> Option<u32> {
        if e.0 == 'B' {
            Some(e.1)
        } else {
            None
        }
    };
    assert_eq!(m.select_draining(&b), Some(2));
    assert_eq!(m.buffered(), 2);
    assert_eq!(m.recv(), Some(('A', 3)));
    let c = |e: (char, u32)| -> Option<u32> {
        if e.0 == 'C' {
            Some(e.1)
        } else {
            None
        }
    };
    assert_eq!(m.select_draining(&c), None);
    assert_eq!(m.buffered(), 0);
}

#[test]
fn drain_matching_keeps_the_order_of_both_parts() {
    let mut m = machine();
    let never = |_: &(char, u32)| -> Option<u32> { None };
    for e in [('A', 1), ('B', 2), ('A', 3), ('B', 4), ('C', 5)] {
        m.select_arrived(e, &never);
    }
    let taken = m.drain_matching(&|e: &(char, u32)| e.0 != 'A');
    assert_eq!(taken, vec![('B', 2), ('B', 4), ('C', 5)]);
    assert_eq!(m.drain(), vec![('A', 1), ('A', 3)]);
}
