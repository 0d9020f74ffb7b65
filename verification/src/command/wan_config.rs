//! The WAN description file: `[[router]]` sections with quoted `key = "value"` lines, each
//! followed by its `[[router.route]]` sections.
use vstd::prelude::*;
use vstd::string::StringSliceAdditionalSpecFns;

use crate::internet::addr::{ipv4_of, socket_of, Ipv4Addr, SocketAddrV4};
use crate::link::ethernet::MacAddr;
use crate::text::{append_lit, find_bytes, find_from, lemma_find_from, lines_of, parse_mac_text, range_is, slice_range, strip_cr, trim, trim_range};

verus! {

/// How an interface of a router reaches its link.
#[derive(Clone, Copy, Debug, PartialEq, Eq, Structural)]
pub enum InterfaceMode {
    Listen,
    Uplink,
}

/// One of the two interfaces a router section describes.
#[derive(Clone, Copy, Debug, PartialEq, Eq, Structural)]
pub enum InterfaceLabel {
    If0,
    If1,
}

/// An interface of a router, complete.
#[derive(Clone, Copy, Debug, PartialEq, Eq, Structural)]
pub struct InterfaceDefinition {
    pub bind: SocketAddrV4,
    pub mac: MacAddr,
    pub ip: Ipv4Addr,
    pub mode: InterfaceMode,
    pub uplink: Option<SocketAddrV4>,
}

/// An interface of a router as far as the file has described it.
#[derive(Clone, Copy, Debug, PartialEq, Eq, Structural)]
pub struct PartialInterface {
    pub bind: Option<SocketAddrV4>,
    pub mac: Option<MacAddr>,
    pub ip: Option<Ipv4Addr>,
    pub mode: Option<InterfaceMode>,
    pub uplink: Option<SocketAddrV4>,
}

/// A route of a router: its `cidr` and `next_hop` values, as written.
#[derive(Clone, Debug)]
pub struct RouteDefinition {
    pub cidr: Vec<u8>,
    pub next_hop: Vec<u8>,
}

/// A router section, complete.
#[derive(Clone, Debug)]
pub struct RouterDefinition {
    pub id: MacAddr,
    pub if0: InterfaceDefinition,
    pub if1: InterfaceDefinition,
    pub routes: Vec<RouteDefinition>,
}

/// A router section as far as the file has described it.
#[derive(Clone, Debug)]
pub struct PartialRouter {
    pub id: Option<MacAddr>,
    pub if0: PartialInterface,
    pub if1: PartialInterface,
    pub routes: Vec<RouteDefinition>,
}

/// The routers of a WAN description.
#[derive(Clone, Debug)]
pub struct WanConfig {
    pub routers: Vec<RouterDefinition>,
}

/// Why a description was refused. Texts are the bytes of the file they quote.
#[derive(Clone, Debug, PartialEq, Eq)]
pub enum WanConfigError {
    /// A line that is neither a section header nor `key = value`.
    InvalidLine(Vec<u8>),
    /// A value that is not quoted.
    ExpectedQuoted(Vec<u8>),
    RouteBeforeRouter,
    KeyOutsideSection,
    UnknownRouterKey(Vec<u8>),
    UnknownRouteKey(Vec<u8>),
    InvalidMac,
    InvalidSocketAddr,
    InvalidIpv4,
    InvalidMode(Vec<u8>),
    MissingMode(InterfaceLabel),
    MissingUplink(InterfaceLabel),
    MissingBind(InterfaceLabel),
    MissingMac(InterfaceLabel),
    MissingIp(InterfaceLabel),
    RouteIncomplete,
    MissingId,
}

/// Why a description was refused, as a value.
pub enum ErrorView {
    InvalidLine(Seq<u8>),
    ExpectedQuoted(Seq<u8>),
    RouteBeforeRouter,
    KeyOutsideSection,
    UnknownRouterKey(Seq<u8>),
    UnknownRouteKey(Seq<u8>),
    InvalidMac,
    InvalidSocketAddr,
    InvalidIpv4,
    InvalidMode(Seq<u8>),
    MissingMode(InterfaceLabel),
    MissingUplink(InterfaceLabel),
    MissingBind(InterfaceLabel),
    MissingMac(InterfaceLabel),
    MissingIp(InterfaceLabel),
    RouteIncomplete,
    MissingId,
}

impl View for WanConfigError {
    type V = ErrorView;

    open spec fn view(&self) -> ErrorView {
        match self {
            WanConfigError::InvalidLine(t) => ErrorView::InvalidLine(t@),
            WanConfigError::ExpectedQuoted(t) => ErrorView::ExpectedQuoted(t@),
            WanConfigError::RouteBeforeRouter => ErrorView::RouteBeforeRouter,
            WanConfigError::KeyOutsideSection => ErrorView::KeyOutsideSection,
            WanConfigError::UnknownRouterKey(t) => ErrorView::UnknownRouterKey(t@),
            WanConfigError::UnknownRouteKey(t) => ErrorView::UnknownRouteKey(t@),
            WanConfigError::InvalidMac => ErrorView::InvalidMac,
            WanConfigError::InvalidSocketAddr => ErrorView::InvalidSocketAddr,
            WanConfigError::InvalidIpv4 => ErrorView::InvalidIpv4,
            WanConfigError::InvalidMode(t) => ErrorView::InvalidMode(t@),
            WanConfigError::MissingMode(l) => ErrorView::MissingMode(*l),
            WanConfigError::MissingUplink(l) => ErrorView::MissingUplink(*l),
            WanConfigError::MissingBind(l) => ErrorView::MissingBind(*l),
            WanConfigError::MissingMac(l) => ErrorView::MissingMac(*l),
            WanConfigError::MissingIp(l) => ErrorView::MissingIp(*l),
            WanConfigError::RouteIncomplete => ErrorView::RouteIncomplete,
            WanConfigError::MissingId => ErrorView::MissingId,
        }
    }
}

/// A route as values: `cidr` and `next_hop`.
pub type RouteView = (Seq<u8>, Seq<u8>);

impl View for RouteDefinition {
    type V = RouteView;

    open spec fn view(&self) -> RouteView {
        (self.cidr@, self.next_hop@)
    }
}

/// A router section as values.
pub struct PartialRouterView {
    pub id: Option<MacAddr>,
    pub if0: PartialInterface,
    pub if1: PartialInterface,
    pub routes: Seq<RouteView>,
}

impl View for PartialRouter {
    type V = PartialRouterView;

    open spec fn view(&self) -> PartialRouterView {
        PartialRouterView { id: self.id, if0: self.if0, if1: self.if1, routes: self.routes@.map_values(|r: RouteDefinition| r@) }
    }
}

/// A complete router as values.
pub struct RouterView {
    pub id: MacAddr,
    pub if0: InterfaceDefinition,
    pub if1: InterfaceDefinition,
    pub routes: Seq<RouteView>,
}

impl View for RouterDefinition {
    type V = RouterView;

    open spec fn view(&self) -> RouterView {
        RouterView { id: self.id, if0: self.if0, if1: self.if1, routes: self.routes@.map_values(|r: RouteDefinition| r@) }
    }
}

/// `[[router]]`
pub open spec fn router_header() -> Seq<u8> {
    seq![91u8, 91, 114, 111, 117, 116, 101, 114, 93, 93]
}

/// `[[router.route]]`
pub open spec fn route_header() -> Seq<u8> {
    seq![91u8, 91, 114, 111, 117, 116, 101, 114, 46, 114, 111, 117, 116, 101, 93, 93]
}

/// The part of a line before its first `#`, trimmed.
pub open spec fn content_of_line(raw: Seq<u8>) -> Seq<u8> {
    match find_from(raw, seq![35u8], 0) {
        Some(i) => trim(raw.take(i as int)),
        None => trim(raw),
    }
}

/// A value in double quotes, without them.
pub open spec fn unquoted(v: Seq<u8>) -> Option<Seq<u8>> {
    if v.len() >= 2 && v[0] == 34 && v.last() == 34 {
        Some(v.subrange(1, v.len() - 1))
    } else {
        None
    }
}

/// How a line `key = "value"` reads: split at the first `=`, the key trimmed, the value
/// trimmed and then unquoted.
pub open spec fn key_value_of(line: Seq<u8>) -> Result<(Seq<u8>, Seq<u8>), ErrorView> {
    match find_from(line, seq![61u8], 0) {
        None => Err(ErrorView::InvalidLine(line)),
        Some(i) => {
            let raw = trim(line.skip((i + 1) as int));
            match unquoted(raw) {
                Some(v) => Ok((trim(line.take(i as int)), v)),
                None => Err(ErrorView::ExpectedQuoted(raw)),
            }
        },
    }
}

/// What a key of a router section sets.
#[derive(Clone, Copy, Debug, PartialEq, Eq, Structural)]
pub enum RouterKey {
    Id,
    Bind(InterfaceLabel),
    Mac(InterfaceLabel),
    Ip(InterfaceLabel),
    Mode(InterfaceLabel),
    Uplink(InterfaceLabel),
}

/// The keys of a router section.
pub open spec fn router_key_of(k: Seq<u8>) -> Option<RouterKey> {
    if k == seq![105u8, 100] {
        Some(RouterKey::Id)
    } else if k == seq![105u8, 102, 48, 95, 98, 105, 110, 100] {
        Some(RouterKey::Bind(InterfaceLabel::If0))
    } else if k == seq![105u8, 102, 48, 95, 109, 97, 99] {
        Some(RouterKey::Mac(InterfaceLabel::If0))
    } else if k == seq![105u8, 102, 48, 95, 105, 112] {
        Some(RouterKey::Ip(InterfaceLabel::If0))
    } else if k == seq![105u8, 102, 48, 95, 109, 111, 100, 101] {
        Some(RouterKey::Mode(InterfaceLabel::If0))
    } else if k == seq![105u8, 102, 48, 95, 117, 112, 108, 105, 110, 107] {
        Some(RouterKey::Uplink(InterfaceLabel::If0))
    } else if k == seq![105u8, 102, 49, 95, 98, 105, 110, 100] {
        Some(RouterKey::Bind(InterfaceLabel::If1))
    } else if k == seq![105u8, 102, 49, 95, 109, 97, 99] {
        Some(RouterKey::Mac(InterfaceLabel::If1))
    } else if k == seq![105u8, 102, 49, 95, 105, 112] {
        Some(RouterKey::Ip(InterfaceLabel::If1))
    } else if k == seq![105u8, 102, 49, 95, 109, 111, 100, 101] {
        Some(RouterKey::Mode(InterfaceLabel::If1))
    } else if k == seq![105u8, 102, 49, 95, 117, 112, 108, 105, 110, 107] {
        Some(RouterKey::Uplink(InterfaceLabel::If1))
    } else {
        None
    }
}

/// `listen` or `uplink`.
pub open spec fn mode_of(v: Seq<u8>) -> Option<InterfaceMode> {
    if v == seq![108u8, 105, 115, 116, 101, 110] {
        Some(InterfaceMode::Listen)
    } else if v == seq![117u8, 112, 108, 105, 110, 107] {
        Some(InterfaceMode::Uplink)
    } else {
        None
    }
}

/// The interface `label` of a router.
pub open spec fn interface_of(r: PartialRouterView, label: InterfaceLabel) -> PartialInterface {
    match label {
        InterfaceLabel::If0 => r.if0,
        InterfaceLabel::If1 => r.if1,
    }
}

/// The router with its interface `label` replaced.
pub open spec fn with_interface(r: PartialRouterView, label: InterfaceLabel, i: PartialInterface) -> PartialRouterView {
    match label {
        InterfaceLabel::If0 => PartialRouterView { if0: i, ..r },
        InterfaceLabel::If1 => PartialRouterView { if1: i, ..r },
    }
}

/// Setting `key` to `value` in a router section.
pub open spec fn assign_router_spec(r: PartialRouterView, key: Seq<u8>, value: Seq<u8>) -> Result<PartialRouterView, ErrorView> {
    match router_key_of(key) {
        None => Err(ErrorView::UnknownRouterKey(key)),
        Some(RouterKey::Id) => match parse_mac_text(value) {
            Some(o) => Ok(PartialRouterView { id: Some(MacAddr::from_seq(o, 0)), ..r }),
            None => Err(ErrorView::InvalidMac),
        },
        Some(RouterKey::Bind(l)) => match socket_of(value) {
            Some(a) => Ok(with_interface(r, l, PartialInterface { bind: Some(a), ..interface_of(r, l) })),
            None => Err(ErrorView::InvalidSocketAddr),
        },
        Some(RouterKey::Mac(l)) => match parse_mac_text(value) {
            Some(o) => Ok(with_interface(r, l, PartialInterface { mac: Some(MacAddr::from_seq(o, 0)), ..interface_of(r, l) })),
            None => Err(ErrorView::InvalidMac),
        },
        Some(RouterKey::Ip(l)) => match ipv4_of(value) {
            Some(ip) => Ok(with_interface(r, l, PartialInterface { ip: Some(ip), ..interface_of(r, l) })),
            None => Err(ErrorView::InvalidIpv4),
        },
        Some(RouterKey::Mode(l)) => match mode_of(value) {
            Some(m) => Ok(with_interface(r, l, PartialInterface { mode: Some(m), ..interface_of(r, l) })),
            None => Err(ErrorView::InvalidMode(value)),
        },
        Some(RouterKey::Uplink(l)) => match socket_of(value) {
            Some(a) => Ok(with_interface(r, l, PartialInterface { uplink: Some(a), ..interface_of(r, l) })),
            None => Err(ErrorView::InvalidSocketAddr),
        },
    }
}

/// Setting `key` to `value` in a route section: `cidr` or `next_hop`.
pub open spec fn assign_route_spec(r: RouteView, key: Seq<u8>, value: Seq<u8>) -> Result<RouteView, ErrorView> {
    if key == seq![99u8, 105, 100, 114] {
        Ok((value, r.1))
    } else if key == seq![110u8, 101, 120, 116, 95, 104, 111, 112] {
        Ok((r.0, value))
    } else {
        Err(ErrorView::UnknownRouteKey(key))
    }
}

/// The section the lines are in.
#[derive(Clone, Copy, Debug, PartialEq, Eq, Structural)]
pub enum Section {
    Outside,
    Router,
    RouterRoute,
}

/// A router section with no key set yet.
pub open spec fn empty_router() -> PartialRouterView {
    let none = PartialInterface { bind: None, mac: None, ip: None, mode: None, uplink: None };
    PartialRouterView { id: None, if0: none, if1: none, routes: Seq::empty() }
}

/// The routers read so far after one more line: comments and blank lines change nothing;
/// `[[router]]` starts a router; `[[router.route]]` starts a route of the last router;
/// a key sets a field of the last router or of its last route.
pub open spec fn line_step(routers: Seq<PartialRouterView>, section: Section, raw: Seq<u8>) -> Result<(Seq<PartialRouterView>, Section), ErrorView> {
    let line = content_of_line(raw);
    if line.len() == 0 {
        Ok((routers, section))
    } else if line == router_header() {
        Ok((routers.push(empty_router()), Section::Router))
    } else if line == route_header() {
        if routers.len() == 0 {
            Err(ErrorView::RouteBeforeRouter)
        } else {
            let last = routers.last();
            Ok((routers.update(routers.len() - 1, PartialRouterView { routes: last.routes.push((Seq::empty(), Seq::empty())), ..last }), Section::RouterRoute))
        }
    } else {
        match key_value_of(line) {
            Err(e) => Err(e),
            Ok((key, value)) => match section {
                Section::Outside => Err(ErrorView::KeyOutsideSection),
                Section::Router => match assign_router_spec(routers.last(), key, value) {
                    Err(e) => Err(e),
                    Ok(r) => Ok((routers.update(routers.len() - 1, r), section)),
                },
                Section::RouterRoute => {
                    let last = routers.last();
                    match assign_route_spec(last.routes.last(), key, value) {
                        Err(e) => Err(e),
                        Ok(route) => Ok((
                            routers.update(routers.len() - 1, PartialRouterView { routes: last.routes.update(last.routes.len() - 1, route), ..last }),
                            section,
                        )),
                    }
                },
            },
        }
    }
}

/// Sections are entered only with a router, and a route section only with a route.
pub open spec fn state_ok(routers: Seq<PartialRouterView>, section: Section) -> bool {
    &&& section != Section::Outside ==> routers.len() > 0
    &&& section == Section::RouterRoute ==> routers.last().routes.len() > 0
}

/// The routers read from `lines`, in order.
pub open spec fn read_lines(routers: Seq<PartialRouterView>, section: Section, lines: Seq<Seq<u8>>) -> Result<Seq<PartialRouterView>, ErrorView>
    decreases lines.len(),
{
    if lines.len() == 0 {
        Ok(routers)
    } else {
        match line_step(routers, section, lines[0]) {
            Err(e) => Err(e),
            Ok((r, s)) => read_lines(r, s, lines.drop_first()),
        }
    }
}

/// An interface completed: its mode is required, an uplink interface needs its uplink, and
/// its bind address, hardware address and address are required, in that order.
pub open spec fn build_interface_spec(i: PartialInterface, label: InterfaceLabel) -> Result<InterfaceDefinition, ErrorView> {
    match i.mode {
        None => Err(ErrorView::MissingMode(label)),
        Some(mode) => if mode == InterfaceMode::Uplink && i.uplink is None {
            Err(ErrorView::MissingUplink(label))
        } else {
            match (i.bind, i.mac, i.ip) {
                (None, _, _) => Err(ErrorView::MissingBind(label)),
                (Some(_), None, _) => Err(ErrorView::MissingMac(label)),
                (Some(_), Some(_), None) => Err(ErrorView::MissingIp(label)),
                (Some(bind), Some(mac), Some(ip)) => Ok(InterfaceDefinition { bind, mac, ip, mode, uplink: i.uplink }),
            }
        },
    }
}

/// A router completed: both interfaces, every route with both values, then its id.
pub open spec fn build_router_spec(r: PartialRouterView) -> Result<RouterView, ErrorView> {
    match build_interface_spec(r.if0, InterfaceLabel::If0) {
        Err(e) => Err(e),
        Ok(if0) => match build_interface_spec(r.if1, InterfaceLabel::If1) {
            Err(e) => Err(e),
            Ok(if1) => if exists|j: int| 0 <= j < r.routes.len() && ((#[trigger] r.routes[j]).0.len() == 0 || r.routes[j].1.len() == 0) {
                Err(ErrorView::RouteIncomplete)
            } else {
                match r.id {
                    None => Err(ErrorView::MissingId),
                    Some(id) => Ok(RouterView { id, if0, if1, routes: r.routes }),
                }
            },
        },
    }
}

/// Every router completed, in order; the first refusal otherwise.
pub open spec fn build_all(rs: Seq<PartialRouterView>) -> Result<Seq<RouterView>, ErrorView>
    decreases rs.len(),
{
    if rs.len() == 0 {
        Ok(Seq::empty())
    } else {
        match build_router_spec(rs[0]) {
            Err(e) => Err(e),
            Ok(first) => match build_all(rs.drop_first()) {
                Err(e) => Err(e),
                Ok(rest) => Ok(seq![first] + rest),
            },
        }
    }
}

/// What a description reads as: its lines read in order from no router and no section,
/// then every router completed.
pub open spec fn wan_config_of(text: Seq<u8>) -> Result<Seq<RouterView>, ErrorView> {
    match read_lines(Seq::empty(), Section::Outside, lines_of(text)) {
        Err(e) => Err(e),
        Ok(rs) => build_all(rs),
    }
}

/// The views of a sequence of router sections.
pub open spec fn routers_view(v: Seq<PartialRouter>) -> Seq<PartialRouterView> {
    v.map_values(|r: PartialRouter| r@)
}

/// A copy of `b`.
fn owned(b: &[u8]) -> (r: Vec<u8>)
    ensures
        r@ == b@,
{
    crate::bytes::copy_range(b, 0, b.len())
}

/// Whether `b` is exactly `lit`.
fn is_exactly(b: &[u8], lit: &[u8]) -> (r: bool)
    ensures
        r == (b@ == lit@),
{
    assert(b@.subrange(0, b@.len() as int) =~= b@);
    range_is(b, (0, b.len()), lit)
}

/// A quoted value without its quotes.
pub fn strip_quotes(value: &[u8]) -> (r: Result<&[u8], WanConfigError>)
    ensures
        match unquoted(value@) {
            Some(v) => r matches Ok(s) && s@ == v,
            None => r matches Err(e) && e@ == ErrorView::ExpectedQuoted(value@),
        },
{
    let n = value.len();
    if n >= 2 && value[0] == 34 && value[n - 1] == 34 {
        Ok(slice_range(value, 1, n - 1))
    } else {
        Err(WanConfigError::ExpectedQuoted(owned(value)))
    }
}

/// Reads a line `key = "value"` into its trimmed key and unquoted value.
pub fn parse_key_value(line: &[u8]) -> (r: Result<(&[u8], &[u8]), WanConfigError>)
    ensures
        match key_value_of(line@) {
            Ok((k, v)) => r matches Ok((a, b)) && a@ == k && b@ == v,
            Err(e) => r matches Err(x) && x@ == e,
        },
{
    let eq = [61u8];
    assert(eq@ =~= seq![61u8]);
    let at = match find_bytes(line, &eq) {
        Some(i) => i,
        None => return Err(WanConfigError::InvalidLine(owned(line))),
    };
    proof {
        lemma_find_from(line@, seq![61u8], 0);
    }
    let n = line.len();
    let (ka, kz) = trim_range(line, 0, at);
    let (va, vz) = trim_range(line, at + 1, n);
    assert(line@.subrange(0, at as int) =~= line@.take(at as int));
    assert(line@.subrange(at + 1, n as int) =~= line@.skip(at + 1));
    let raw = slice_range(line, va, vz);
    let value = match strip_quotes(raw) {
        Ok(v) => v,
        Err(e) => return Err(e),
    };
    Ok((slice_range(line, ka, kz), value))
}

/// Reads an interface mode, `listen` or `uplink`.
pub fn parse_mode(value: &[u8]) -> (r: Result<InterfaceMode, WanConfigError>)
    ensures
        match mode_of(value@) {
            Some(m) => r == Ok::<InterfaceMode, WanConfigError>(m),
            None => r matches Err(e) && e@ == ErrorView::InvalidMode(value@),
        },
{
    let listen = [108u8, 105, 115, 116, 101, 110];
    let uplink = [117u8, 112, 108, 105, 110, 107];
    assert(listen@ =~= seq![108u8, 105, 115, 116, 101, 110]);
    assert(uplink@ =~= seq![117u8, 112, 108, 105, 110, 107]);
    if is_exactly(value, &listen) {
        Ok(InterfaceMode::Listen)
    } else if is_exactly(value, &uplink) {
        Ok(InterfaceMode::Uplink)
    } else {
        Err(WanConfigError::InvalidMode(owned(value)))
    }
}

/// Sets `cidr` or `next_hop` of a route.
pub fn assign_route_key(route: &mut RouteDefinition, key: &[u8], value: &[u8]) -> (r: Result<(), WanConfigError>)
    ensures
        match assign_route_spec(old(route)@, key@, value@) {
            Ok(v) => r is Ok && final(route)@ == v,
            Err(e) => r matches Err(x) && x@ == e && final(route)@ == old(route)@,
        },
{
    let cidr = [99u8, 105, 100, 114];
    let next_hop = [110u8, 101, 120, 116, 95, 104, 111, 112];
    assert(cidr@ =~= seq![99u8, 105, 100, 114]);
    assert(next_hop@ =~= seq![110u8, 101, 120, 116, 95, 104, 111, 112]);
    if is_exactly(key, &cidr) {
        route.cidr = owned(value);
        Ok(())
    } else if is_exactly(key, &next_hop) {
        route.next_hop = owned(value);
        Ok(())
    } else {
        Err(WanConfigError::UnknownRouteKey(owned(key)))
    }
}

/// Which router key `key` is.
fn router_key(key: &[u8]) -> (r: Option<RouterKey>)
    ensures
        r == router_key_of(key@),
{
    let id = [105u8, 100];
    let b0 = [105u8, 102, 48, 95, 98, 105, 110, 100];
    let m0 = [105u8, 102, 48, 95, 109, 97, 99];
    let i0 = [105u8, 102, 48, 95, 105, 112];
    let d0 = [105u8, 102, 48, 95, 109, 111, 100, 101];
    let u0 = [105u8, 102, 48, 95, 117, 112, 108, 105, 110, 107];
    let b1 = [105u8, 102, 49, 95, 98, 105, 110, 100];
    let m1 = [105u8, 102, 49, 95, 109, 97, 99];
    let i1 = [105u8, 102, 49, 95, 105, 112];
    let d1 = [105u8, 102, 49, 95, 109, 111, 100, 101];
    let u1 = [105u8, 102, 49, 95, 117, 112, 108, 105, 110, 107];
    assert(id@ =~= seq![105u8, 100]);
    assert(b0@ =~= seq![105u8, 102, 48, 95, 98, 105, 110, 100]);
    assert(m0@ =~= seq![105u8, 102, 48, 95, 109, 97, 99]);
    assert(i0@ =~= seq![105u8, 102, 48, 95, 105, 112]);
    assert(d0@ =~= seq![105u8, 102, 48, 95, 109, 111, 100, 101]);
    assert(u0@ =~= seq![105u8, 102, 48, 95, 117, 112, 108, 105, 110, 107]);
    assert(b1@ =~= seq![105u8, 102, 49, 95, 98, 105, 110, 100]);
    assert(m1@ =~= seq![105u8, 102, 49, 95, 109, 97, 99]);
    assert(i1@ =~= seq![105u8, 102, 49, 95, 105, 112]);
    assert(d1@ =~= seq![105u8, 102, 49, 95, 109, 111, 100, 101]);
    assert(u1@ =~= seq![105u8, 102, 49, 95, 117, 112, 108, 105, 110, 107]);
    if is_exactly(key, &id) {
        Some(RouterKey::Id)
    } else if is_exactly(key, &b0) {
        Some(RouterKey::Bind(InterfaceLabel::If0))
    } else if is_exactly(key, &m0) {
        Some(RouterKey::Mac(InterfaceLabel::If0))
    } else if is_exactly(key, &i0) {
        Some(RouterKey::Ip(InterfaceLabel::If0))
    } else if is_exactly(key, &d0) {
        Some(RouterKey::Mode(InterfaceLabel::If0))
    } else if is_exactly(key, &u0) {
        Some(RouterKey::Uplink(InterfaceLabel::If0))
    } else if is_exactly(key, &b1) {
        Some(RouterKey::Bind(InterfaceLabel::If1))
    } else if is_exactly(key, &m1) {
        Some(RouterKey::Mac(InterfaceLabel::If1))
    } else if is_exactly(key, &i1) {
        Some(RouterKey::Ip(InterfaceLabel::If1))
    } else if is_exactly(key, &d1) {
        Some(RouterKey::Mode(InterfaceLabel::If1))
    } else if is_exactly(key, &u1) {
        Some(RouterKey::Uplink(InterfaceLabel::If1))
    } else {
        None
    }
}

/// Reads a socket address from the bytes of a value.
fn socket_value(value: &[u8]) -> (r: Option<SocketAddrV4>)
    ensures
        r == socket_of(value@),
{
    let colon = [58u8];
    assert(colon@ =~= seq![58u8]);
    let at = match find_bytes(value, &colon) {
        Some(i) => i,
        None => return None,
    };
    proof {
        lemma_find_from(value@, seq![58u8], 0);
    }
    let n = value.len();
    assert(value@.subrange(0, at as int) =~= value@.take(at as int));
    assert(value@.subrange(at + 1, n as int) =~= value@.skip(at + 1));
    let ip = match crate::text::parse_ipv4(value, 0, at) {
        Some((p, q, u, v)) => Ipv4Addr(p, q, u, v),
        None => return None,
    };
    if at + 1 < n && value[at + 1] == 43 {
        assert(!crate::text::all_digits(value@.skip(at + 1))) by {
            assert(value@.skip(at + 1)[0] == 43);
        }
        return None;
    }
    let port = match crate::text::parse_uint(value, at + 1, n, 65535) {
        Some(p) => p as u16,
        None => return None,
    };
    assert(crate::text::strip_plus(value@.skip(at + 1)) == value@.skip(at + 1));
    Some(SocketAddrV4 { ip, port })
}

/// Reads a hardware address from the bytes of a value.
fn mac_value(value: &[u8]) -> (r: Option<MacAddr>)
    ensures
        match parse_mac_text(value@) {
            Some(o) => r == Some(MacAddr::from_seq(o, 0)),
            None => r is None,
        },
{
    assert(value@.subrange(0, value@.len() as int) =~= value@);
    match crate::text::parse_mac(value, 0, value.len()) {
        Some(o) => {
            let m = MacAddr::new(o);
            assert(m == MacAddr::from_seq(o@, 0));
            Some(m)
        },
        None => None,
    }
}

/// Reads an IPv4 address from the bytes of a value.
fn ipv4_value(value: &[u8]) -> (r: Option<Ipv4Addr>)
    ensures
        r == ipv4_of(value@),
{
    assert(value@.subrange(0, value@.len() as int) =~= value@);
    match crate::text::parse_ipv4(value, 0, value.len()) {
        Some((p, q, u, v)) => Some(Ipv4Addr(p, q, u, v)),
        None => None,
    }
}

/// Sets a field of interface `label`.
fn set_interface(router: &mut PartialRouter, label: InterfaceLabel, i: PartialInterface)
    ensures
        final(router)@ == with_interface(old(router)@, label, i),
{
    match label {
        InterfaceLabel::If0 => router.if0 = i,
        InterfaceLabel::If1 => router.if1 = i,
    }
}

/// Sets a key of a router section.
pub fn assign_router_key(router: &mut PartialRouter, key: &[u8], value: &[u8]) -> (r: Result<(), WanConfigError>)
    ensures
        match assign_router_spec(old(router)@, key@, value@) {
            Ok(v) => r is Ok && final(router)@ == v,
            Err(e) => r matches Err(x) && x@ == e && final(router)@ == old(router)@,
        },
{
    let k = match router_key(key) {
        Some(k) => k,
        None => return Err(WanConfigError::UnknownRouterKey(owned(key))),
    };
    match k {
        RouterKey::Id => match mac_value(value) {
            Some(m) => {
                router.id = Some(m);
                Ok(())
            },
            None => Err(WanConfigError::InvalidMac),
        },
        RouterKey::Bind(l) => match socket_value(value) {
            Some(a) => {
                let i = PartialInterface { bind: Some(a), ..if l == InterfaceLabel::If0 { router.if0 } else { router.if1 } };
                set_interface(router, l, i);
                Ok(())
            },
            None => Err(WanConfigError::InvalidSocketAddr),
        },
        RouterKey::Mac(l) => match mac_value(value) {
            Some(m) => {
                let i = PartialInterface { mac: Some(m), ..if l == InterfaceLabel::If0 { router.if0 } else { router.if1 } };
                set_interface(router, l, i);
                Ok(())
            },
            None => Err(WanConfigError::InvalidMac),
        },
        RouterKey::Ip(l) => match ipv4_value(value) {
            Some(ip) => {
                let i = PartialInterface { ip: Some(ip), ..if l == InterfaceLabel::If0 { router.if0 } else { router.if1 } };
                set_interface(router, l, i);
                Ok(())
            },
            None => Err(WanConfigError::InvalidIpv4),
        },
        RouterKey::Mode(l) => match parse_mode(value) {
            Ok(m) => {
                let i = PartialInterface { mode: Some(m), ..if l == InterfaceLabel::If0 { router.if0 } else { router.if1 } };
                set_interface(router, l, i);
                Ok(())
            },
            Err(e) => Err(e),
        },
        RouterKey::Uplink(l) => match socket_value(value) {
            Some(a) => {
                let i = PartialInterface { uplink: Some(a), ..if l == InterfaceLabel::If0 { router.if0 } else { router.if1 } };
                set_interface(router, l, i);
                Ok(())
            },
            None => Err(WanConfigError::InvalidSocketAddr),
        },
    }
}

/// Completes an interface.
pub fn build_interface(i: PartialInterface, label: InterfaceLabel) -> (r: Result<InterfaceDefinition, WanConfigError>)
    ensures
        match build_interface_spec(i, label) {
            Ok(d) => r == Ok::<InterfaceDefinition, WanConfigError>(d),
            Err(e) => r matches Err(x) && x@ == e,
        },
{
    let mode = match i.mode {
        Some(m) => m,
        None => return Err(WanConfigError::MissingMode(label)),
    };
    if mode == InterfaceMode::Uplink && i.uplink.is_none() {
        return Err(WanConfigError::MissingUplink(label));
    }
    let bind = match i.bind {
        Some(b) => b,
        None => return Err(WanConfigError::MissingBind(label)),
    };
    let mac = match i.mac {
        Some(m) => m,
        None => return Err(WanConfigError::MissingMac(label)),
    };
    let ip = match i.ip {
        Some(a) => a,
        None => return Err(WanConfigError::MissingIp(label)),
    };
    Ok(InterfaceDefinition { bind, mac, ip, mode, uplink: i.uplink })
}

/// Completes a router section.
pub fn build_router(partial: PartialRouter) -> (r: Result<RouterDefinition, WanConfigError>)
    ensures
        match build_router_spec(partial@) {
            Ok(d) => r matches Ok(x) && x@ == d,
            Err(e) => r matches Err(x) && x@ == e,
        },
{
    let if0 = match build_interface(partial.if0, InterfaceLabel::If0) {
        Ok(d) => d,
        Err(e) => return Err(e),
    };
    let if1 = match build_interface(partial.if1, InterfaceLabel::If1) {
        Ok(d) => d,
        Err(e) => return Err(e),
    };
    let ghost rv = partial@.routes;
    let mut j: usize = 0;
    while j < partial.routes.len()
        invariant
            j <= partial.routes@.len(),
            rv == partial.routes@.map_values(|r: RouteDefinition| r@),
            rv == partial@.routes,
            build_interface_spec(partial.if0, InterfaceLabel::If0) == Ok::<InterfaceDefinition, ErrorView>(if0),
            build_interface_spec(partial.if1, InterfaceLabel::If1) == Ok::<InterfaceDefinition, ErrorView>(if1),
            forall|x: int| 0 <= x < j ==> !((#[trigger] rv[x]).0.len() == 0 || rv[x].1.len() == 0),
        decreases partial.routes@.len() - j,
    {
        if partial.routes[j].cidr.len() == 0 || partial.routes[j].next_hop.len() == 0 {
            assert(rv[j as int] == partial.routes@[j as int]@);
            assert(rv[j as int].0.len() == 0 || rv[j as int].1.len() == 0);
            assert(exists|x: int| 0 <= x < rv.len() && ((#[trigger] rv[x]).0.len() == 0 || rv[x].1.len() == 0));
            return Err(WanConfigError::RouteIncomplete);
        }
        j = j + 1;
    }
    let id = match partial.id {
        Some(id) => id,
        None => return Err(WanConfigError::MissingId),
    };
    Ok(RouterDefinition { id, if0, if1, routes: partial.routes })
}

/// The bounds of the content of the line `b[start..end]`: before its first `#`, trimmed.
fn line_content(b: &[u8], start: usize, end: usize) -> (r: (usize, usize))
    requires
        start <= end <= b@.len(),
    ensures
        start <= r.0 <= r.1 <= end,
        b@.subrange(r.0 as int, r.1 as int) == content_of_line(b@.subrange(start as int, end as int)),
{
    let sub = slice_range(b, start, end);
    let hash = [35u8];
    assert(hash@ =~= seq![35u8]);
    let cut = match find_bytes(sub, &hash) {
        Some(i) => {
            proof {
                lemma_find_from(sub@, seq![35u8], 0);
            }
            assert(sub@.take(i as int) =~= b@.subrange(start as int, start + i));
            start + i
        },
        None => end,
    };
    trim_range(b, start, cut)
}

/// Either the built prefix followed by what the rest builds, or the rest's refusal.
pub open spec fn prepend_built(done: Seq<RouterView>, rest: Result<Seq<RouterView>, ErrorView>) -> Result<Seq<RouterView>, ErrorView> {
    match rest {
        Ok(ys) => Ok(done + ys),
        Err(e) => Err(e),
    }
}

/// Reads one line into the routers and section so far.
fn apply_line(routers: &mut Vec<PartialRouter>, section: &mut Section, b: &[u8], start: usize, end: usize) -> (r: Result<(), WanConfigError>)
    requires
        start <= end <= b@.len(),
        state_ok(routers_view(old(routers)@), *old(section)),
    ensures
        match line_step(routers_view(old(routers)@), *old(section), b@.subrange(start as int, end as int)) {
            Ok((rs, sct)) => r is Ok && routers_view(final(routers)@) == rs && *final(section) == sct && state_ok(rs, sct),
            Err(e) => r matches Err(x) && x@ == e,
        },
{
    let ghost before = routers_view(routers@);
    let (a, z) = line_content(b, start, end);
    let line = slice_range(b, a, z);
    let router_hdr = [91u8, 91, 114, 111, 117, 116, 101, 114, 93, 93];
    let route_hdr = [91u8, 91, 114, 111, 117, 116, 101, 114, 46, 114, 111, 117, 116, 101, 93, 93];
    assert(router_hdr@ =~= router_header());
    assert(route_hdr@ =~= route_header());
    if z == a {
        return Ok(());
    }
    if is_exactly(line, &router_hdr) {
        routers.push(PartialRouter {
            id: None,
            if0: PartialInterface { bind: None, mac: None, ip: None, mode: None, uplink: None },
            if1: PartialInterface { bind: None, mac: None, ip: None, mode: None, uplink: None },
            routes: Vec::new(),
        });
        *section = Section::Router;
        assert(routers@.last()@.routes =~= Seq::<RouteView>::empty());
        assert(routers@.last()@ == empty_router());
        assert(routers_view(routers@) =~= before.push(empty_router()));
        return Ok(());
    }
    if is_exactly(line, &route_hdr) {
        let mut last = match routers.pop() {
            Some(r) => r,
            None => return Err(WanConfigError::RouteBeforeRouter),
        };
        let ghost lv = last@;
        assert(lv == before.last());
        last.routes.push(RouteDefinition { cidr: Vec::new(), next_hop: Vec::new() });
        assert(last@.routes =~= lv.routes.push((Seq::empty(), Seq::empty())));
        routers.push(last);
        *section = Section::RouterRoute;
        assert(routers_view(routers@) =~= before.update(before.len() - 1, PartialRouterView { routes: lv.routes.push((Seq::empty(), Seq::empty())), ..lv }));
        return Ok(());
    }
    let (key, value) = match parse_key_value(line) {
        Ok(kv) => kv,
        Err(e) => return Err(e),
    };
    match *section {
        Section::Outside => Err(WanConfigError::KeyOutsideSection),
        Section::Router => {
            let mut last = routers.pop().unwrap();
            assert(last@ == before.last());
            match assign_router_key(&mut last, key, value) {
                Ok(()) => {},
                Err(e) => return Err(e),
            }
            routers.push(last);
            assert(routers_view(routers@) =~= before.update(before.len() - 1, last@));
            Ok(())
        },
        Section::RouterRoute => {
            let mut last = routers.pop().unwrap();
            let ghost lv = last@;
            assert(lv == before.last());
            let mut route = last.routes.pop().unwrap();
            assert(route@ == lv.routes.last());
            match assign_route_key(&mut route, key, value) {
                Ok(()) => {},
                Err(e) => return Err(e),
            }
            last.routes.push(route);
            assert(last@.routes =~= lv.routes.update(lv.routes.len() - 1, route@));
            routers.push(last);
            assert(routers_view(routers@) =~= before.update(before.len() - 1, PartialRouterView { routes: lv.routes.update(lv.routes.len() - 1, route@), ..lv }));
            Ok(())
        },
    }
}

/// Completes every router section, in order.
fn build_routers(routers: Vec<PartialRouter>) -> (r: Result<Vec<RouterDefinition>, WanConfigError>)
    ensures
        match build_all(routers_view(routers@)) {
            Ok(rs) => r matches Ok(v) && v@.map_values(|d: RouterDefinition| d@) == rs,
            Err(e) => r matches Err(x) && x@ == e,
        },
{
    let ghost all = routers_view(routers@);
    let mut pending = routers;
    let mut built: Vec<RouterDefinition> = Vec::new();
    assert(built@.map_values(|d: RouterDefinition| d@) =~= Seq::<RouterView>::empty());
    assert(Seq::<RouterView>::empty() + Seq::<RouterView>::empty() =~= Seq::<RouterView>::empty());
    while pending.len() > 0
        invariant
            all == routers_view(routers@),
            build_all(all) == prepend_built(built@.map_values(|d: RouterDefinition| d@), build_all(routers_view(pending@))),
        decreases pending@.len(),
    {
        let ghost rest = routers_view(pending@);
        let partial = pending.remove(0);
        assert(routers_view(pending@) =~= rest.drop_first());
        assert(partial@ == rest[0]);
        let ghost done = built@.map_values(|d: RouterDefinition| d@);
        match build_router(partial) {
            Ok(d) => {
                built.push(d);
                assert(built@.map_values(|x: RouterDefinition| x@) =~= done.push(d@));
                proof {
                    match build_all(rest.drop_first()) {
                        Ok(ys) => {
                            assert(done.push(d@) + ys =~= done + (seq![d@] + ys));
                        },
                        Err(_) => {},
                    }
                }
            },
            Err(e) => {
                assert(build_all(rest) == Err::<Seq<RouterView>, ErrorView>(e@));
                assert(build_all(all) == Err::<Seq<RouterView>, ErrorView>(e@));
                return Err(e);
            },
        }
    }
    assert(routers_view(pending@) =~= Seq::<PartialRouterView>::empty());
    assert(build_all(routers_view(pending@)) == Ok::<Seq<RouterView>, ErrorView>(Seq::empty()));
    assert(built@.map_values(|d: RouterDefinition| d@) + Seq::<RouterView>::empty() =~= built@.map_values(|d: RouterDefinition| d@));
    Ok(built)
}

/// Reads a WAN description.
pub fn parse_wan_config(content: &str) -> (r: Result<WanConfig, WanConfigError>)
    ensures
        match wan_config_of(content.spec_bytes()) {
            Ok(rs) => r matches Ok(c) && c.routers@.map_values(|d: RouterDefinition| d@) == rs,
            Err(e) => r matches Err(x) && x@ == e,
        },
{
    let b = content.as_bytes();
    let end = b.len();
    let ghost text = b@;
    let ghost goal = read_lines(Seq::empty(), Section::Outside, lines_of(text));
    let mut routers: Vec<PartialRouter> = Vec::new();
    let mut section = Section::Outside;
    let mut pos: usize = 0;
    assert(text.skip(0) =~= text);
    assert(routers_view(routers@) =~= Seq::<PartialRouterView>::empty());
    while pos < end
        invariant
            pos <= end == text.len(),
            text == b@,
            text == content.spec_bytes(),
            goal == read_lines(Seq::empty(), Section::Outside, lines_of(text)),
            goal == read_lines(routers_view(routers@), section, lines_of(text.skip(pos as int))),
            state_ok(routers_view(routers@), section),
        decreases end - pos,
    {
        let (line_end, next) = crate::text::next_line(b, pos);
        let ghost raw = b@.subrange(pos as int, line_end as int);
        assert(lines_of(text.skip(pos as int))[0] == raw);
        assert(lines_of(text.skip(pos as int)).drop_first() =~= lines_of(text.skip(next as int)));
        let ghost before = routers_view(routers@);
        let ghost sect = section;
        assert(goal == match line_step(before, sect, raw) {
            Err(e) => Err(e),
            Ok((rs, sc)) => read_lines(rs, sc, lines_of(text.skip(next as int))),
        });
        match apply_line(&mut routers, &mut section, b, pos, line_end) {
            Ok(()) => {},
            Err(e) => {
                assert(goal == Err::<Seq<PartialRouterView>, ErrorView>(e@));
                return Err(e);
            },
        }
        pos = next;
    }
    assert(text.skip(pos as int) =~= Seq::<u8>::empty());
    assert(lines_of(text.skip(pos as int)) =~= Seq::<Seq<u8>>::empty());
    match build_routers(routers) {
        Ok(built) => Ok(WanConfig { routers: built }),
        Err(e) => Err(e),
    }
}

impl WanConfig {
    /// The first router with id `id`.
    pub fn find_router(&self, id: MacAddr) -> (r: Option<&RouterDefinition>)
        ensures
            match r {
                Some(d) => exists|i: int| 0 <= i < self.routers@.len() && self.routers@[i] == *d && d.id == id
                    && forall|j: int| 0 <= j < i ==> (#[trigger] self.routers@[j]).id != id,
                None => forall|j: int| 0 <= j < self.routers@.len() ==> (#[trigger] self.routers@[j]).id != id,
            },
    {
        let mut i: usize = 0;
        while i < self.routers.len()
            invariant
                i <= self.routers@.len(),
                forall|j: int| 0 <= j < i ==> (#[trigger] self.routers@[j]).id != id,
            decreases self.routers@.len() - i,
        {
            if self.routers[i].id == id {
                return Some(&self.routers[i]);
            }
            i = i + 1;
        }
        None
    }

    /// The interface a host joins to reach `mac`: for the router with that id, its first
    /// listening interface; otherwise the interface with that hardware address. Routers are
    /// tried in order.
    pub fn find_uplink(&self, mac: MacAddr) -> (r: Option<InterfaceDefinition>)
        ensures
            r == uplink_in(self.routers@.map_values(|d: RouterDefinition| d@), mac),
    {
        let ghost rs = self.routers@.map_values(|d: RouterDefinition| d@);
        let mut i: usize = 0;
        assert(rs.skip(0) =~= rs);
        while i < self.routers.len()
            invariant
                i <= self.routers@.len(),
                rs == self.routers@.map_values(|d: RouterDefinition| d@),
                uplink_in(rs, mac) == uplink_in(rs.skip(i as int), mac),
            decreases self.routers@.len() - i,
        {
            let router = &self.routers[i];
            assert(rs.skip(i as int)[0] == router@);
            assert(rs.skip(i as int).drop_first() =~= rs.skip(i + 1));
            if router.id == mac {
                if router.if0.mode == InterfaceMode::Listen {
                    return Some(router.if0);
                }
                if router.if1.mode == InterfaceMode::Listen {
                    return Some(router.if1);
                }
            }
            if router.if0.mac == mac {
                return Some(router.if0);
            }
            if router.if1.mac == mac {
                return Some(router.if1);
            }
            i = i + 1;
        }
        assert(rs.skip(i as int) =~= Seq::<RouterView>::empty());
        None
    }
}

/// The interface `find_uplink` gives for `mac` among `rs`.
pub open spec fn uplink_in(rs: Seq<RouterView>, mac: MacAddr) -> Option<InterfaceDefinition>
    decreases rs.len(),
{
    if rs.len() == 0 {
        None
    } else {
        let r = rs[0];
        if r.id == mac && r.if0.mode == InterfaceMode::Listen {
            Some(r.if0)
        } else if r.id == mac && r.if1.mode == InterfaceMode::Listen {
            Some(r.if1)
        } else if r.if0.mac == mac {
            Some(r.if0)
        } else if r.if1.mac == mac {
            Some(r.if1)
        } else {
            uplink_in(rs.drop_first(), mac)
        }
    }
}

/// The link-mode argument of an interface: `listen`, or its uplink's address.
pub fn interface_mode_text(interface: InterfaceDefinition) -> (r: String)
    requires
        interface.mode == InterfaceMode::Uplink ==> interface.uplink is Some,
    ensures
        r@ == vstd::utf8::decode_utf8(match interface.mode {
            InterfaceMode::Listen => seq![108u8, 105, 115, 116, 101, 110],
            InterfaceMode::Uplink => crate::internet::addr::socket_text(interface.uplink->0),
        }),
{
    match interface.mode {
        InterfaceMode::Listen => {
            let listen = [108u8, 105, 115, 116, 101, 110];
            let v = crate::text::bytes_of(&listen);
            assert(v@ =~= seq![108u8, 105, 115, 116, 101, 110]);
            proof {
                assert(crate::text::all_graphic(v@));
                crate::text::lemma_graphic_ascii(v@);
            }
            crate::text::ascii_to_string(v)
        },
        InterfaceMode::Uplink => match interface.uplink {
            Some(a) => a.to_text(),
            None => String::new(),
        },
    }
}

/// The text of a label: `if0` or `if1`.
pub open spec fn label_text(l: InterfaceLabel) -> Seq<u8> {
    match l {
        InterfaceLabel::If0 => seq![105u8, 102, 48],
        InterfaceLabel::If1 => seq![105u8, 102, 49],
    }
}

/// The text of an error, quoting what the file said.
pub open spec fn error_text(e: ErrorView) -> Seq<u8> {
    match e {
        ErrorView::InvalidLine(t) => seq![105u8, 110, 118, 97, 108, 105, 100, 32, 99, 111, 110, 102, 105, 103, 32, 108, 105, 110, 101, 58, 32] + t,
        ErrorView::ExpectedQuoted(t) => seq![101u8, 120, 112, 101, 99, 116, 101, 100, 32, 113, 117, 111, 116, 101, 100, 32, 115, 116, 114, 105, 110, 103, 44, 32, 103, 111, 116, 32] + t,
        ErrorView::UnknownRouterKey(t) => seq![117u8, 110, 107, 110, 111, 119, 110, 32, 114, 111, 117, 116, 101, 114, 32, 107, 101, 121, 58, 32] + t,
        ErrorView::UnknownRouteKey(t) => seq![117u8, 110, 107, 110, 111, 119, 110, 32, 114, 111, 117, 116, 101, 114, 46, 114, 111, 117, 116, 101, 32, 107, 101, 121, 58, 32] + t,
        ErrorView::InvalidMode(t) => seq![105u8, 110, 118, 97, 108, 105, 100, 32, 105, 110, 116, 101, 114, 102, 97, 99, 101, 32, 109, 111, 100, 101, 58, 32] + t,
        ErrorView::RouteBeforeRouter => seq![114u8, 111, 117, 116, 101, 114, 46, 114, 111, 117, 116, 101, 32, 109, 117, 115, 116, 32, 99, 111, 109, 101, 32, 97, 102, 116, 101, 114, 32, 114, 111, 117, 116, 101, 114],
        ErrorView::KeyOutsideSection => seq![107u8, 101, 121, 47, 118, 97, 108, 117, 101, 32, 109, 117, 115, 116, 32, 97, 112, 112, 101, 97, 114, 32, 105, 110, 115, 105, 100, 101, 32, 91, 91, 114, 111, 117, 116, 101, 114, 93, 93, 32, 111, 114, 32, 91, 91, 114, 111, 117, 116, 101, 114, 46, 114, 111, 117, 116, 101, 93, 93],
        ErrorView::InvalidMac => seq![105u8, 110, 118, 97, 108, 105, 100, 32, 77, 65, 67, 32, 97, 100, 100, 114, 101, 115, 115],
        ErrorView::InvalidSocketAddr => seq![105u8, 110, 118, 97, 108, 105, 100, 32, 115, 111, 99, 107, 101, 116, 32, 97, 100, 100, 114, 101, 115, 115, 32, 115, 121, 110, 116, 97, 120],
        ErrorView::InvalidIpv4 => seq![105u8, 110, 118, 97, 108, 105, 100, 32, 73, 80, 118, 52, 32, 97, 100, 100, 114, 101, 115, 115, 32, 115, 121, 110, 116, 97, 120],
        ErrorView::RouteIncomplete => seq![101u8, 97, 99, 104, 32, 91, 91, 114, 111, 117, 116, 101, 114, 46, 114, 111, 117, 116, 101, 93, 93, 32, 110, 101, 101, 100, 115, 32, 99, 105, 100, 114, 32, 97, 110, 100, 32, 110, 101, 120, 116, 95, 104, 111, 112],
        ErrorView::MissingId => seq![114u8, 111, 117, 116, 101, 114, 46, 105, 100, 32, 105, 115, 32, 114, 101, 113, 117, 105, 114, 101, 100],
        ErrorView::MissingMode(l) => label_text(l) + seq![95u8, 109, 111, 100, 101, 32, 105, 115, 32, 114, 101, 113, 117, 105, 114, 101, 100],
        ErrorView::MissingUplink(l) => label_text(l) + seq![95u8, 117, 112, 108, 105, 110, 107, 32, 105, 115, 32, 114, 101, 113, 117, 105, 114, 101, 100, 32, 119, 104, 101, 110, 32, 109, 111, 100, 101, 32, 105, 115, 32, 117, 112, 108, 105, 110, 107],
        ErrorView::MissingBind(l) => label_text(l) + seq![95u8, 98, 105, 110, 100, 32, 105, 115, 32, 114, 101, 113, 117, 105, 114, 101, 100],
        ErrorView::MissingMac(l) => label_text(l) + seq![95u8, 109, 97, 99, 32, 105, 115, 32, 114, 101, 113, 117, 105, 114, 101, 100],
        ErrorView::MissingIp(l) => label_text(l) + seq![95u8, 105, 112, 32, 105, 115, 32, 114, 101, 113, 117, 105, 114, 101, 100],
    }
}

impl WanConfigError {
    /// The text of the error, such as `unknown router key: ifx_ip`.
    pub fn message(&self) -> (r: Vec<u8>)
        ensures
            r@ == error_text(self@),
    {
        let mut out: Vec<u8> = Vec::new();
        match self {
            WanConfigError::InvalidLine(t) => {
                let lit = [105u8, 110, 118, 97, 108, 105, 100, 32, 99, 111, 110, 102, 105, 103, 32, 108, 105, 110, 101, 58, 32];
                append_lit(&mut out, &lit);
                append_lit(&mut out, t.as_slice());
                assert(out@ =~= seq![105u8, 110, 118, 97, 108, 105, 100, 32, 99, 111, 110, 102, 105, 103, 32, 108, 105, 110, 101, 58, 32] + t@);
            },
            WanConfigError::ExpectedQuoted(t) => {
                let lit = [101u8, 120, 112, 101, 99, 116, 101, 100, 32, 113, 117, 111, 116, 101, 100, 32, 115, 116, 114, 105, 110, 103, 44, 32, 103, 111, 116, 32];
                append_lit(&mut out, &lit);
                append_lit(&mut out, t.as_slice());
                assert(out@ =~= seq![101u8, 120, 112, 101, 99, 116, 101, 100, 32, 113, 117, 111, 116, 101, 100, 32, 115, 116, 114, 105, 110, 103, 44, 32, 103, 111, 116, 32] + t@);
            },
            WanConfigError::UnknownRouterKey(t) => {
                let lit = [117u8, 110, 107, 110, 111, 119, 110, 32, 114, 111, 117, 116, 101, 114, 32, 107, 101, 121, 58, 32];
                append_lit(&mut out, &lit);
                append_lit(&mut out, t.as_slice());
                assert(out@ =~= seq![117u8, 110, 107, 110, 111, 119, 110, 32, 114, 111, 117, 116, 101, 114, 32, 107, 101, 121, 58, 32] + t@);
            },
            WanConfigError::UnknownRouteKey(t) => {
                let lit = [117u8, 110, 107, 110, 111, 119, 110, 32, 114, 111, 117, 116, 101, 114, 46, 114, 111, 117, 116, 101, 32, 107, 101, 121, 58, 32];
                append_lit(&mut out, &lit);
                append_lit(&mut out, t.as_slice());
                assert(out@ =~= seq![117u8, 110, 107, 110, 111, 119, 110, 32, 114, 111, 117, 116, 101, 114, 46, 114, 111, 117, 116, 101, 32, 107, 101, 121, 58, 32] + t@);
            },
            WanConfigError::InvalidMode(t) => {
                let lit = [105u8, 110, 118, 97, 108, 105, 100, 32, 105, 110, 116, 101, 114, 102, 97, 99, 101, 32, 109, 111, 100, 101, 58, 32];
                append_lit(&mut out, &lit);
                append_lit(&mut out, t.as_slice());
                assert(out@ =~= seq![105u8, 110, 118, 97, 108, 105, 100, 32, 105, 110, 116, 101, 114, 102, 97, 99, 101, 32, 109, 111, 100, 101, 58, 32] + t@);
            },
            WanConfigError::RouteBeforeRouter => {
                let lit = [114u8, 111, 117, 116, 101, 114, 46, 114, 111, 117, 116, 101, 32, 109, 117, 115, 116, 32, 99, 111, 109, 101, 32, 97, 102, 116, 101, 114, 32, 114, 111, 117, 116, 101, 114];
                append_lit(&mut out, &lit);
                assert(out@ =~= seq![114u8, 111, 117, 116, 101, 114, 46, 114, 111, 117, 116, 101, 32, 109, 117, 115, 116, 32, 99, 111, 109, 101, 32, 97, 102, 116, 101, 114, 32, 114, 111, 117, 116, 101, 114]);
            },
            WanConfigError::KeyOutsideSection => {
                let lit = [107u8, 101, 121, 47, 118, 97, 108, 117, 101, 32, 109, 117, 115, 116, 32, 97, 112, 112, 101, 97, 114, 32, 105, 110, 115, 105, 100, 101, 32, 91, 91, 114, 111, 117, 116, 101, 114, 93, 93, 32, 111, 114, 32, 91, 91, 114, 111, 117, 116, 101, 114, 46, 114, 111, 117, 116, 101, 93, 93];
                append_lit(&mut out, &lit);
                assert(out@ =~= seq![107u8, 101, 121, 47, 118, 97, 108, 117, 101, 32, 109, 117, 115, 116, 32, 97, 112, 112, 101, 97, 114, 32, 105, 110, 115, 105, 100, 101, 32, 91, 91, 114, 111, 117, 116, 101, 114, 93, 93, 32, 111, 114, 32, 91, 91, 114, 111, 117, 116, 101, 114, 46, 114, 111, 117, 116, 101, 93, 93]);
            },
            WanConfigError::InvalidMac => {
                let lit = [105u8, 110, 118, 97, 108, 105, 100, 32, 77, 65, 67, 32, 97, 100, 100, 114, 101, 115, 115];
                append_lit(&mut out, &lit);
                assert(out@ =~= seq![105u8, 110, 118, 97, 108, 105, 100, 32, 77, 65, 67, 32, 97, 100, 100, 114, 101, 115, 115]);
            },
            WanConfigError::InvalidSocketAddr => {
                let lit = [105u8, 110, 118, 97, 108, 105, 100, 32, 115, 111, 99, 107, 101, 116, 32, 97, 100, 100, 114, 101, 115, 115, 32, 115, 121, 110, 116, 97, 120];
                append_lit(&mut out, &lit);
                assert(out@ =~= seq![105u8, 110, 118, 97, 108, 105, 100, 32, 115, 111, 99, 107, 101, 116, 32, 97, 100, 100, 114, 101, 115, 115, 32, 115, 121, 110, 116, 97, 120]);
            },
            WanConfigError::InvalidIpv4 => {
                let lit = [105u8, 110, 118, 97, 108, 105, 100, 32, 73, 80, 118, 52, 32, 97, 100, 100, 114, 101, 115, 115, 32, 115, 121, 110, 116, 97, 120];
                append_lit(&mut out, &lit);
                assert(out@ =~= seq![105u8, 110, 118, 97, 108, 105, 100, 32, 73, 80, 118, 52, 32, 97, 100, 100, 114, 101, 115, 115, 32, 115, 121, 110, 116, 97, 120]);
            },
            WanConfigError::RouteIncomplete => {
                let lit = [101u8, 97, 99, 104, 32, 91, 91, 114, 111, 117, 116, 101, 114, 46, 114, 111, 117, 116, 101, 93, 93, 32, 110, 101, 101, 100, 115, 32, 99, 105, 100, 114, 32, 97, 110, 100, 32, 110, 101, 120, 116, 95, 104, 111, 112];
                append_lit(&mut out, &lit);
                assert(out@ =~= seq![101u8, 97, 99, 104, 32, 91, 91, 114, 111, 117, 116, 101, 114, 46, 114, 111, 117, 116, 101, 93, 93, 32, 110, 101, 101, 100, 115, 32, 99, 105, 100, 114, 32, 97, 110, 100, 32, 110, 101, 120, 116, 95, 104, 111, 112]);
            },
            WanConfigError::MissingId => {
                let lit = [114u8, 111, 117, 116, 101, 114, 46, 105, 100, 32, 105, 115, 32, 114, 101, 113, 117, 105, 114, 101, 100];
                append_lit(&mut out, &lit);
                assert(out@ =~= seq![114u8, 111, 117, 116, 101, 114, 46, 105, 100, 32, 105, 115, 32, 114, 101, 113, 117, 105, 114, 101, 100]);
            },
            WanConfigError::MissingMode(l) => {
                push_label(&mut out, *l);
                let lit = [95u8, 109, 111, 100, 101, 32, 105, 115, 32, 114, 101, 113, 117, 105, 114, 101, 100];
                append_lit(&mut out, &lit);
                assert(out@ =~= label_text(*l) + seq![95u8, 109, 111, 100, 101, 32, 105, 115, 32, 114, 101, 113, 117, 105, 114, 101, 100]);
            },
            WanConfigError::MissingUplink(l) => {
                push_label(&mut out, *l);
                let lit = [95u8, 117, 112, 108, 105, 110, 107, 32, 105, 115, 32, 114, 101, 113, 117, 105, 114, 101, 100, 32, 119, 104, 101, 110, 32, 109, 111, 100, 101, 32, 105, 115, 32, 117, 112, 108, 105, 110, 107];
                append_lit(&mut out, &lit);
                assert(out@ =~= label_text(*l) + seq![95u8, 117, 112, 108, 105, 110, 107, 32, 105, 115, 32, 114, 101, 113, 117, 105, 114, 101, 100, 32, 119, 104, 101, 110, 32, 109, 111, 100, 101, 32, 105, 115, 32, 117, 112, 108, 105, 110, 107]);
            },
            WanConfigError::MissingBind(l) => {
                push_label(&mut out, *l);
                let lit = [95u8, 98, 105, 110, 100, 32, 105, 115, 32, 114, 101, 113, 117, 105, 114, 101, 100];
                append_lit(&mut out, &lit);
                assert(out@ =~= label_text(*l) + seq![95u8, 98, 105, 110, 100, 32, 105, 115, 32, 114, 101, 113, 117, 105, 114, 101, 100]);
            },
            WanConfigError::MissingMac(l) => {
                push_label(&mut out, *l);
                let lit = [95u8, 109, 97, 99, 32, 105, 115, 32, 114, 101, 113, 117, 105, 114, 101, 100];
                append_lit(&mut out, &lit);
                assert(out@ =~= label_text(*l) + seq![95u8, 109, 97, 99, 32, 105, 115, 32, 114, 101, 113, 117, 105, 114, 101, 100]);
            },
            WanConfigError::MissingIp(l) => {
                push_label(&mut out, *l);
                let lit = [95u8, 105, 112, 32, 105, 115, 32, 114, 101, 113, 117, 105, 114, 101, 100];
                append_lit(&mut out, &lit);
                assert(out@ =~= label_text(*l) + seq![95u8, 105, 112, 32, 105, 115, 32, 114, 101, 113, 117, 105, 114, 101, 100]);
            },
        }
        out
    }
}

/// Appends the text of a label.
fn push_label(out: &mut Vec<u8>, l: InterfaceLabel)
    ensures
        final(out)@ == old(out)@ + label_text(l),
{
    match l {
        InterfaceLabel::If0 => {
            let lit = [105u8, 102, 48];
            append_lit(out, &lit);
            assert(lit@ =~= label_text(l));
        },
        InterfaceLabel::If1 => {
            let lit = [105u8, 102, 49];
            append_lit(out, &lit);
            assert(lit@ =~= label_text(l));
        },
    }
}

} // verus!
