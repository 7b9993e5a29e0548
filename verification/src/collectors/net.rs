//! Network interfaces: counters from `/proc/net/dev`, and link state from
//! `/sys/class/net`.

use vstd::prelude::*;

use crate::collector::{Collected, Collector};
use crate::collectors::counters::{counters_of, read_counters};
use crate::error::{Error, ErrorView};
use crate::sample::{
    option_view, views, NetInterface, NetInterfaceView, NetSample, NetSampleView, Snapshot,
    SnapshotView,
};
use crate::sysfs::{
    is_safe_component, quoted, safe_component, sanitized, show, SysfsReader, DEFAULT_MAX_LINES,
};
use crate::text::{
    begins, chars_of, cut_at, first_of, lines, lines_of, slices, split_once, starts_with,
    string_of, text2, text4, text_option_view, trim, trim_of, words, words_of,
};

verus! {

pub const NAME: &'static str = "net";

pub const PROC_NET_DEV: &'static str = "proc/net/dev";

pub const SYS_CLASS_NET: &'static str = "sys/class/net";

/// Eight receive counters and eight transmit counters stand on a line.
pub const NET_DEV_FIELDS: usize = 16;

/// The interface that a line of `/proc/net/dev` describes, if it is not blank.
/// The first colon ends the name: a long name has no space behind it.
pub open spec fn net_line_of(path: Seq<char>, line_no: usize, line: Seq<char>) -> Result<
    Option<NetInterfaceView>,
    ErrorView,
> {
    if trim_of(line).len() == 0 {
        Ok(None)
    } else {
        match cut_at(line, ':') {
            None => Err(
                ErrorView::Parse {
                    path,
                    line: Some(line_no),
                    reason: "line has no ':' separating name from counters"@,
                },
            ),
            Some((before, rest)) => {
                let name = trim_of(before);
                if !safe_component(name) {
                    Err(
                        ErrorView::Parse {
                            path,
                            line: Some(line_no),
                            reason: "unsafe interface name "@ + quoted(sanitized(name, 32)),
                        },
                    )
                } else {
                    match counters_of(path, line_no, words_of(rest), NET_DEV_FIELDS as nat) {
                        Err(e) => Err(e),
                        Ok(v) => Ok(
                            Some(
                                NetInterfaceView {
                                    name,
                                    rx_bytes: v[0],
                                    rx_packets: v[1],
                                    rx_errors: v[2],
                                    rx_dropped: v[3],
                                    tx_bytes: v[8],
                                    tx_packets: v[9],
                                    tx_errors: v[10],
                                    tx_dropped: v[11],
                                    operstate: None,
                                    mtu: None,
                                },
                            ),
                        ),
                    }
                }
            },
        }
    }
}

pub open spec fn interface_view(r: Result<Option<NetInterface>, Error>) -> Result<
    Option<NetInterfaceView>,
    ErrorView,
> {
    match r {
        Ok(i) => Ok(option_view(i)),
        Err(e) => Err(e@),
    }
}

fn parse_line(path: &str, line_no: usize, line: &[char]) -> (r: Result<Option<NetInterface>, Error>)
    ensures
        interface_view(r) == net_line_of(path@, line_no, line@),
{
    if trim(line).len() == 0 {
        return Ok(None);
    }
    let (before, rest) = match split_once(line, ':') {
        None => {
            return Err(
                Error::parse(
                    path,
                    Some(line_no),
                    "line has no ':' separating name from counters".to_owned(),
                ),
            );
        },
        Some(parts) => parts,
    };
    let name = trim(before);
    let text = string_of(name);
    if !is_safe_component(text.as_str()) {
        let shown = show(name, 32);
        return Err(
            Error::parse(path, Some(line_no), text2("unsafe interface name ", shown.as_str())),
        );
    }
    let fields = words(rest);
    assert(slices(fields@).skip(0) == slices(fields@));
    let v = match read_counters(path, line_no, &fields, 0, NET_DEV_FIELDS) {
        Err(e) => return Err(e),
        Ok(v) => v,
    };
    Ok(
        Some(
            NetInterface {
                name: text,
                rx_bytes: v[0],
                rx_packets: v[1],
                rx_errors: v[2],
                rx_dropped: v[3],
                tx_bytes: v[8],
                tx_packets: v[9],
                tx_errors: v[10],
                tx_dropped: v[11],
                operstate: None,
                mtu: None,
            },
        ),
    )
}

/// One data line of `/proc/net/dev`.
pub fn parse_net_dev_line(path: &str, line_no: usize, line: &str) -> (r: Result<
    Option<NetInterface>,
    Error,
>)
    ensures
        interface_view(r) == net_line_of(path@, line_no, line@),
{
    let cs = chars_of(line);
    parse_line(path, line_no, cs.as_slice())
}

/// The interfaces that the lines describe, of which the first has the number
/// `line_no`.
pub open spec fn net_lines(path: Seq<char>, line_no: nat, lines: Seq<Seq<char>>) -> Result<
    Seq<NetInterfaceView>,
    ErrorView,
>
    decreases lines.len(),
{
    if lines.len() == 0 {
        Ok(seq![])
    } else {
        match net_line_of(path, line_no as usize, lines[0]) {
            Err(e) => Err(e),
            Ok(found) => match net_lines(path, line_no + 1, lines.drop_first()) {
                Err(e) => Err(e),
                Ok(rest) => match found {
                    Some(i) => Ok(seq![i] + rest),
                    None => Ok(rest),
                },
            },
        }
    }
}

/// The lines behind the two header lines.
pub open spec fn data_lines(contents: Seq<char>) -> Seq<Seq<char>> {
    let all = lines_of(contents);
    if all.len() <= 2 {
        seq![]
    } else {
        first_of(all.skip(2), DEFAULT_MAX_LINES as nat)
    }
}

pub open spec fn net_dev_of(path: Seq<char>, contents: Seq<char>) -> Result<
    Seq<NetInterfaceView>,
    ErrorView,
> {
    net_lines(path, 3, data_lines(contents))
}

pub open spec fn interfaces_view(r: Result<Vec<NetInterface>, Error>) -> Result<
    Seq<NetInterfaceView>,
    ErrorView,
> {
    match r {
        Ok(v) => Ok(views(v@)),
        Err(e) => Err(e@),
    }
}

/// Parses `/proc/net/dev`: two header lines, and an interface on each line
/// behind them.
pub fn parse_net_dev(path: &str, contents: &str) -> (r: Result<Vec<NetInterface>, Error>)
    ensures
        interfaces_view(r) == net_dev_of(path@, contents@),
{
    let cs = chars_of(contents);
    let all = lines(cs.as_slice());
    let ghost ls = slices(all@);
    let ghost data = data_lines(contents@);
    let mut out: Vec<NetInterface> = Vec::new();
    assert(views(out@) == Seq::<NetInterfaceView>::empty());
    if all.len() <= 2 {
        return Ok(out);
    }
    let n: usize = if all.len() - 2 < DEFAULT_MAX_LINES {
        all.len() - 2
    } else {
        DEFAULT_MAX_LINES
    };
    let mut i: usize = 0;
    assert(data.skip(0) == data);
    assert forall|rest: Seq<NetInterfaceView>| #[trigger] (views(out@) + rest) == rest by {}
    while i < n
        invariant
            i <= n,
            n <= all.len() - 2,
            n <= DEFAULT_MAX_LINES,
            n == data.len(),
            ls == slices(all@),
            data == first_of(ls.skip(2), DEFAULT_MAX_LINES as nat),
            data == data_lines(contents@),
            net_lines(path@, 3, data) == match net_lines(
                path@,
                (i + 3) as nat,
                data.skip(i as int),
            ) {
                Ok(rest) => Ok::<Seq<NetInterfaceView>, ErrorView>(views(out@) + rest),
                Err(e) => Err(e),
            },
        decreases n - i,
    {
        let line: &[char] = all[i + 2];
        assert(data.skip(i as int)[0] == line@);
        assert(data.skip(i as int).drop_first() == data.skip(i + 1));
        match parse_line(path, i + 3, line) {
            Err(e) => return Err(e),
            Ok(None) => {},
            Ok(Some(found)) => {
                let ghost before = views(out@);
                out.push(found);
                assert(views(out@) == before.push(found@));
                proof {
                    match net_lines(path@, (i + 4) as nat, data.skip(i + 1)) {
                        Ok(more) => {
                            assert(before.push(found@) + more == before + (seq![found@] + more));
                        },
                        Err(_) => {},
                    }
                }
            },
        }
        i = i + 1;
    }
    assert(data.skip(i as int) == Seq::<Seq<char>>::empty());
    assert(views(out@) + Seq::<NetInterfaceView>::empty() == views(out@));
    Ok(out)
}

pub open spec fn link_path(iface: Seq<char>, file: Seq<char>) -> Seq<char> {
    SYS_CLASS_NET@ + "/"@ + iface + file
}

/// The state of an interface's link, where it can be read.
pub open spec fn operstate_of(reader: &SysfsReader, iface: Seq<char>) -> Option<Seq<char>> {
    match reader.first_line_at(link_path(iface, "/operstate"@)) {
        Ok(Ok(state)) => Some(state),
        _ => None,
    }
}

/// The largest packet that an interface takes, where it can be read.
pub open spec fn mtu_of(reader: &SysfsReader, iface: Seq<char>) -> Option<u64> {
    match reader.u64_at(link_path(iface, "/mtu"@)) {
        Ok(Ok(mtu)) => Some(mtu),
        _ => None,
    }
}

/// Link state and MTU of one interface. Both are decoration on the counters,
/// and either is `None` where it cannot be had, for whatever reason.
pub fn read_link_state(reader: &SysfsReader, iface: &str) -> (r: Result<
    (Option<String>, Option<u64>),
    Error,
>)
    ensures
        r is Ok,
        text_option_view(r->Ok_0.0) == operstate_of(reader, iface@),
        r->Ok_0.1 == mtu_of(reader, iface@),
{
    let path = text4(SYS_CLASS_NET, "/", iface, "/operstate");
    let operstate = match reader.read_first_line(path.as_str()) {
        Ok(Ok(state)) => Some(state),
        _ => None,
    };
    let path = text4(SYS_CLASS_NET, "/", iface, "/mtu");
    let mtu = match reader.read_u64(path.as_str()) {
        Ok(Ok(value)) => Some(value),
        _ => None,
    };
    Ok((operstate, mtu))
}

/// An interface is shown unless it is a loopback, which nobody means by
/// network throughput.
pub open spec fn shown(name: Seq<char>, show_all: bool) -> bool {
    show_all || !begins(name, "lo"@)
}

pub fn is_visible(name: &str, show_all: bool) -> (r: bool)
    ensures
        r == shown(name@, show_all),
{
    let cs = chars_of(name);
    show_all || !starts_with(cs.as_slice(), "lo")
}

/// The sample of some interfaces; none where there are none.
pub open spec fn net_sample_of(interfaces: Seq<NetInterfaceView>) -> Option<NetSampleView> {
    if interfaces.len() == 0 {
        None
    } else {
        Some(NetSampleView { interfaces })
    }
}

pub fn build_sample(interfaces: Vec<NetInterface>) -> (r: Option<NetSample>)
    ensures
        option_view(r) == net_sample_of(views(interfaces@)),
{
    assert(views(interfaces@).len() == interfaces@.len());
    if interfaces.len() == 0 {
        None
    } else {
        Some(NetSample { interfaces })
    }
}

/// The interfaces that are shown, each with the state of its link.
pub open spec fn linked(reader: &SysfsReader, interfaces: Seq<NetInterfaceView>, show_all: bool) -> Seq<
    NetInterfaceView,
>
    decreases interfaces.len(),
{
    if interfaces.len() == 0 {
        seq![]
    } else {
        let before = linked(reader, interfaces.drop_last(), show_all);
        let last = interfaces.last();
        if shown(last.name, show_all) {
            before.push(
                NetInterfaceView {
                    operstate: operstate_of(reader, last.name),
                    mtu: mtu_of(reader, last.name),
                    ..last
                },
            )
        } else {
            before
        }
    }
}

fn link_all(reader: &SysfsReader, interfaces: &Vec<NetInterface>, show_all: bool) -> (r: Result<
    Vec<NetInterface>,
    Error,
>)
    ensures
        r is Ok,
        views(r->Ok_0@) == linked(reader, views(interfaces@), show_all),
{
    let ghost all = views(interfaces@);
    let mut out: Vec<NetInterface> = Vec::new();
    let mut i: usize = 0;
    assert(views(out@) == Seq::<NetInterfaceView>::empty());
    while i < interfaces.len()
        invariant
            i <= interfaces.len(),
            all == views(interfaces@),
            views(out@) == linked(reader, all.take(i as int), show_all),
        decreases interfaces.len() - i,
    {
        let it = &interfaces[i];
        assert(all.take(i + 1).drop_last() == all.take(i as int));
        assert(all.take(i + 1).last() == it@);
        if is_visible(it.name.as_str(), show_all) {
            let (operstate, mtu) = match read_link_state(reader, it.name.as_str()) {
                Err(e) => return Err(e),
                Ok(state) => state,
            };
            let ghost before = views(out@);
            let found = NetInterface {
                name: it.name.clone(),
                rx_bytes: it.rx_bytes,
                tx_bytes: it.tx_bytes,
                rx_packets: it.rx_packets,
                tx_packets: it.tx_packets,
                rx_errors: it.rx_errors,
                tx_errors: it.tx_errors,
                rx_dropped: it.rx_dropped,
                tx_dropped: it.tx_dropped,
                operstate,
                mtu,
            };
            out.push(found);
            assert(views(out@) == before.push(found@));
        }
        i = i + 1;
    }
    assert(all.take(i as int) == all);
    Ok(out)
}

#[derive(Debug)]
pub struct NetCollector {
    /// Whether to show loopbacks too.
    show_all: bool,
}

/// What a collection does.
pub open spec fn net_collected(show_all: bool, reader: &SysfsReader, before: SnapshotView) -> Collected<
    bool,
> {
    let interfaces = match reader.text_at(PROC_NET_DEV@) {
        Err(e) => Err(e),
        Ok(Err(_)) => Ok(seq![]),
        Ok(Ok(text)) => net_dev_of(PROC_NET_DEV@, text),
    };
    match interfaces {
        Err(e) => Collected { state: show_all, snapshot: before, outcome: Err(e) },
        Ok(found) => Collected {
            state: show_all,
            snapshot: SnapshotView {
                net: net_sample_of(linked(reader, found, show_all)),
                ..before
            },
            outcome: Ok(()),
        },
    }
}

impl NetCollector {
    pub closed spec fn shows_all(&self) -> bool {
        self.show_all
    }

    pub fn new() -> (r: NetCollector)
        ensures
            !r.shows_all(),
    {
        NetCollector { show_all: false }
    }

    pub fn show_all(self, show_all: bool) -> (r: NetCollector)
        ensures
            r.shows_all() == show_all,
    {
        NetCollector { show_all }
    }
}

impl Collector for NetCollector {
    type Model = bool;

    open spec fn model(&self) -> bool {
        self.shows_all()
    }

    open spec fn named(state: bool) -> Seq<char> {
        NAME@
    }

    open spec fn usable(state: bool, reader: &SysfsReader) -> bool {
        reader.present(PROC_NET_DEV@)
    }

    open spec fn collected(state: bool, reader: &SysfsReader, before: SnapshotView) -> Collected<bool> {
        net_collected(state, reader, before)
    }

    fn name(&self) -> (r: &'static str) {
        NAME
    }

    fn probe(&self, reader: &SysfsReader) -> (r: bool) {
        reader.is_present(PROC_NET_DEV)
    }

    fn collect(&mut self, reader: &SysfsReader, snapshot: &mut Snapshot) -> (r: Result<(), Error>) {
        let found = match reader.read_to_string(PROC_NET_DEV) {
            Err(e) => return Err(e),
            Ok(Err(_)) => Vec::new(),
            Ok(Ok(contents)) => match parse_net_dev(PROC_NET_DEV, contents.as_str()) {
                Err(e) => return Err(e),
                Ok(found) => found,
            },
        };
        assert(found@.len() == 0 ==> views(found@) == Seq::<NetInterfaceView>::empty());
        match link_all(reader, &found, self.show_all) {
            Err(e) => Err(e),
            Ok(interfaces) => {
                snapshot.net = build_sample(interfaces);
                Ok(())
            },
        }
    }
}

} // verus!
