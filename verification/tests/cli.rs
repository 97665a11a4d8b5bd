use netsim_embed::cli::{Command, Event, InvalidLine};
use netsim_embed::iface::{flags_down, flags_up, netmask_for, route_request, tun_flags};
use netsim_embed::range::Ipv4Range;
use netsim_embed::route::Ipv4Route;

#[test]
fn commands_are_lines() {
    assert_eq!(Command::Start.as_str(), ">start");
    assert_eq!(Command::Finish.as_str(), ">finish");
    assert_eq!(Command::parse(">start"), Ok(Command::Start));
    assert_eq!(Command::parse(">finish"), Ok(Command::Finish));
    assert_eq!(Command::parse("start"), Err(InvalidLine));
    assert_eq!(Command::parse(">start "), Err(InvalidLine));
    assert_eq!(Command::parse(""), Err(InvalidLine));
    assert_eq!(Command::parse("<started"), Err(InvalidLine));
}

#[test]
fn events_are_lines() {
    assert_eq!(Event::Started.as_str(), "<started");
    assert_eq!(Event::Finished.as_str(), "<finished");
    assert_eq!(Event::parse("<started"), Ok(Event::Started));
    assert_eq!(Event::parse("<finished"), Ok(Event::Finished));
    assert_eq!(Event::parse("<exited"), Err(InvalidLine));
    assert_eq!(Event::parse(">start"), Err(InvalidLine));
    for e in [Event::Started, Event::Finished] {
        assert_eq!(Event::parse(e.as_str()), Ok(e));
    }
    for c in [Command::Start, Command::Finish] {
        assert_eq!(Command::parse(c.as_str()), Ok(c));
    }
}

#[test]
fn route_requests() {
    let r = Ipv4Route::new(Ipv4Range::new(0x0a00_0000, 8), None);
    let q = route_request(&r);
    assert_eq!((q.dest, q.genmask, q.gateway, q.by_gateway), (0x0a00_0000, 0xff00_0000, None, false));
    let r = Ipv4Route::new(Ipv4Range::global(), Some(0x0a00_0001));
    let q = route_request(&r);
    assert_eq!((q.dest, q.genmask, q.gateway, q.by_gateway), (0, 0, Some(0x0a00_0001), true));
    assert_eq!(r.gateway(), Some(0x0a00_0001));
    assert_eq!(Ipv4Route::from_addr(7).dest().netmask(), 0xffff_ffff);
}

#[test]
fn interface_flags() {
    assert_eq!(tun_flags(), 0x1001);
    assert_eq!(flags_up(0), 0x41);
    assert_eq!(flags_up(0x1002), 0x1043);
    assert_eq!(flags_down(0x1043), 0x1042);
    assert_eq!(flags_down(0), 0);
    assert_eq!(netmask_for(0), 0);
    assert_eq!(netmask_for(24), 0xffff_ff00);
    assert_eq!(netmask_for(32), 0xffff_ffff);
}
