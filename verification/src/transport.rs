//! Printer selectors, discovered printers, and how bytes are handed to a printer.

use vstd::prelude::*;
use vstd::string::*;

use crate::error::{is_invalid_argument, is_not_found, SlipbridgeError};
use crate::text::{
    ascii_lower, lemma_ascii_lower_idempotent, chars_of, lemma_decimal_reads_back, lemma_last_index_of_append, starts_with, find_from, find_in, lemma_find_from_bounds, trim_end_char, trim_end_char_bound, eq_chars, less_chars, lemma_seq_less_irreflexive, lemma_seq_less_total, lemma_seq_less_transitive, seq_less, contains_ignore_ascii_case, eq_ignore_ascii_case, push_decimal, push_hex4, lemma_hex4_reads_back, lemma_decimal_plain, lemma_split_char_append, lemma_split_char_none, lemma_last_index_of_bounds, contains, decimal, has_prefix, hex4, last_index, last_index_of,
    parse_unsigned, parse_unsigned_in, push_range, push_str, split_bounds, split_char, string_from_range,
    string_of, strip_prefix, trim, trim_bounds, trim_start_matches, trim_start_matches_bound,
};

verus! {

/// A printer found on the system, as listed to the user.
#[derive(Clone, Debug)]
pub struct DiscoveredPrinter {
    pub id: String,
    pub display_name: String,
    pub transport: String,
    pub address: String,
    pub source: Option<String>,
}

/// Which physical link a printer is reached over.
#[derive(Copy, Clone, Debug, PartialEq, Eq, Structural)]
pub enum TransportKind {
    Usb,
    Tcp,
}

impl TransportKind {
    /// The lower-case name of the transport.
    pub fn as_str(self) -> (r: &'static str)
        ensures
            r@ == (match self {
                TransportKind::Usb => "usb"@,
                TransportKind::Tcp => "tcp"@,
            }),
    {
        match self {
            TransportKind::Usb => "usb",
            TransportKind::Tcp => "tcp",
        }
    }
}

/// A printer the user selected, ready to be connected to.
#[derive(Clone, Debug)]
pub struct ResolvedPrinter {
    pub id: String,
    pub transport: TransportKind,
    pub target: PrinterTarget,
}

/// Where the bytes for a printer go.
#[derive(Clone, Debug)]
pub enum PrinterTarget {
    Usb(UsbTarget),
    Tcp(TcpTarget),
}

/// A USB printer by vendor and product id, optionally pinned to a bus and address.
#[derive(Copy, Clone, Debug, PartialEq, Eq, Structural)]
pub struct UsbTarget {
    pub vendor_id: u16,
    pub product_id: u16,
    pub bus_number: Option<u8>,
    pub device_address: Option<u8>,
}

/// A network printer by host and port.
#[derive(Clone, Debug)]
pub struct TcpTarget {
    pub host: String,
    pub port: u16,
}

/// How many bytes a send handed over, and how long it took.
#[derive(Copy, Clone, Debug)]
pub struct SendStats {
    pub bytes_sent: usize,
    pub duration_ms: u128,
}

// ---------------------------------------------------------------------------
// Selector grammar
// ---------------------------------------------------------------------------
/// A hexadecimal id field: `trim`, then every leading `0x` removed, then a `u16` in base 16.
pub open spec fn parse_u16_hex_spec(value: Seq<char>, field: Seq<char>) -> Result<u16, Seq<char>> {
    let normalized = trim_start_matches(trim(value), "0x"@);
    match parse_unsigned(normalized, 16, 0xFFFF) {
        Some(n) => Ok(n as u16),
        None => Err("invalid "@ + field + " '"@ + normalized + "', expected hex"@),
    }
}

/// A small number field: `trim`, then a `u8` in base 16 after a `0x` prefix, else in base 10.
pub open spec fn parse_u8_auto_spec(value: Seq<char>, field: Seq<char>) -> Result<u8, Seq<char>> {
    let normalized = trim(value);
    let parsed = match strip_prefix(normalized, "0x"@) {
        Some(hex) => parse_unsigned(hex, 16, 0xFF),
        None => parse_unsigned(normalized, 10, 0xFF),
    };
    match parsed {
        Some(n) => Ok(n as u8),
        None => Err("invalid "@ + field + " '"@ + normalized + "'"@),
    }
}

/// `host:port`, split at the last colon; the host must not be empty and the port is 1 to 65535.
pub open spec fn parse_tcp_spec(value: Seq<char>) -> Result<(Seq<char>, u16), Seq<char>> {
    match last_index_of(value, ':') {
        None => Err("tcp selector must be host:port"@),
        Some(i) => {
            let host = value.subrange(0, i);
            let port = value.subrange(i + 1, value.len() as int);
            if host.len() == 0 {
                Err("tcp selector host cannot be empty"@)
            } else {
                match parse_unsigned(port, 10, 0xFFFF) {
                    None => Err("invalid tcp port '"@ + port + "': expected 1-65535"@),
                    Some(p) => if p == 0 {
                        Err("tcp port must be greater than 0"@)
                    } else {
                        Ok((host, p as u16))
                    },
                }
            }
        },
    }
}

/// `VID:PID` or `VID:PID:BUS:ADDRESS`, ids in hexadecimal.
pub open spec fn parse_usb_spec(value: Seq<char>) -> Result<UsbTarget, Seq<char>> {
    let fields = split_char(value, ':');
    if fields.len() != 2 && fields.len() != 4 {
        Err("USB selector must be VID:PID or VID:PID:BUS:ADDRESS"@)
    } else {
        match parse_u16_hex_spec(fields[0], "vendor id"@) {
            Err(m) => Err(m),
            Ok(vendor_id) => match parse_u16_hex_spec(fields[1], "product id"@) {
                Err(m) => Err(m),
                Ok(product_id) => if fields.len() == 4 {
                    match parse_u8_auto_spec(fields[2], "bus number"@) {
                        Err(m) => Err(m),
                        Ok(bus) => match parse_u8_auto_spec(fields[3], "device address"@) {
                            Err(m) => Err(m),
                            Ok(address) => Ok(
                                UsbTarget {
                                    vendor_id,
                                    product_id,
                                    bus_number: Some(bus),
                                    device_address: Some(address),
                                },
                            ),
                        },
                    }
                } else {
                    Ok(
                        UsbTarget {
                            vendor_id,
                            product_id,
                            bus_number: None,
                            device_address: None,
                        },
                    )
                },
            },
        }
    }
}

/// The id of a resolved USB printer: `usb://vvvv:pppp`, four lower-case hex digits each.
pub open spec fn usb_id(t: UsbTarget) -> Seq<char> {
    "usb://"@ + hex4(t.vendor_id) + ":"@ + hex4(t.product_id)
}

/// The id of a resolved network printer: `tcp://host:port`.
pub open spec fn tcp_id(host: Seq<char>, port: u16) -> Seq<char> {
    "tcp://"@ + host + ":"@ + decimal(port as nat)
}

/// Where a selector leads.
pub enum Resolution {
    Usb(UsbTarget),
    Tcp(Seq<char>, u16),
}

/// Why a selector leads nowhere.
pub enum Failure {
    InvalidArgument(Seq<char>),
    NotFound(Seq<char>),
}

/// `r` is the printer that resolution `res` describes.
pub open spec fn resolves_to(r: ResolvedPrinter, res: Resolution) -> bool {
    match res {
        Resolution::Usb(t) => {
            &&& r.id@ == usb_id(t)
            &&& r.transport == TransportKind::Usb
            &&& r.target == PrinterTarget::Usb(t)
        },
        Resolution::Tcp(host, port) => {
            &&& r.id@ == tcp_id(host, port)
            &&& r.transport == TransportKind::Tcp
            &&& r.target matches PrinterTarget::Tcp(t) && t.host@ == host && t.port == port
        },
    }
}

/// `e` is the error that `f` describes.
pub open spec fn fails_with(e: SlipbridgeError, f: Failure) -> bool {
    match f {
        Failure::InvalidArgument(m) => is_invalid_argument(e, m),
        Failure::NotFound(m) => is_not_found(e, m),
    }
}

/// Where the id of a discovered printer leads.
pub open spec fn resolve_discovered_spec(id: Seq<char>) -> Result<Resolution, Seq<char>> {
    match strip_prefix(id, "tcp://"@) {
        Some(rest) => match parse_tcp_spec(rest) {
            Ok((host, port)) => Ok(Resolution::Tcp(host, port)),
            Err(m) => Err(m),
        },
        None => match strip_prefix(id, "usb://"@) {
            Some(rest) => match parse_usb_spec(rest) {
                Ok(t) => Ok(Resolution::Usb(t)),
                Err(m) => Err(m),
            },
            None => Err("unsupported discovered printer id '"@ + id + "'"@),
        },
    }
}

/// `p`'s id equals the selector up to ASCII case.
pub open spec fn id_matches(p: DiscoveredPrinter, selector: Seq<char>) -> bool {
    ascii_lower(p.id@) == ascii_lower(selector)
}

/// `p`'s display name contains the selector, both taken in ASCII lower case.
pub open spec fn name_matches(p: DiscoveredPrinter, selector: Seq<char>) -> bool {
    contains(ascii_lower(p.display_name@), ascii_lower(selector))
}

/// Indices, in order, of the printers in `ps` whose id matches the selector.
pub open spec fn id_matches_in(ps: Seq<DiscoveredPrinter>, selector: Seq<char>) -> Seq<int>
    decreases ps.len(),
{
    if ps.len() == 0 {
        seq![]
    } else {
        id_matches_in(ps.drop_last(), selector) + if id_matches(ps.last(), selector) {
            seq![ps.len() - 1]
        } else {
            seq![]
        }
    }
}

/// Indices, in order, of the printers in `ps` whose display name matches the selector.
pub open spec fn name_matches_in(ps: Seq<DiscoveredPrinter>, selector: Seq<char>) -> Seq<int>
    decreases ps.len(),
{
    if ps.len() == 0 {
        seq![]
    } else {
        name_matches_in(ps.drop_last(), selector) + if name_matches(ps.last(), selector) {
            seq![ps.len() - 1]
        } else {
            seq![]
        }
    }
}

/// The printers a selector picks among the discovered ones: those whose id matches,
/// or, when none does, those whose display name matches.
pub open spec fn selector_candidates(ps: Seq<DiscoveredPrinter>, selector: Seq<char>) -> Seq<int> {
    if id_matches_in(ps, selector).len() == 0 {
        name_matches_in(ps, selector)
    } else {
        id_matches_in(ps, selector)
    }
}

/// Where a selector leads: `usb://…`, `tcp://…` or `host:port` directly; otherwise the one
/// discovered printer it picks; no printer is a not-found error, several are ambiguous.
pub open spec fn resolve_printer_spec(selector: Seq<char>, ps: Seq<DiscoveredPrinter>) -> Result<
    Resolution,
    Failure,
> {
    match strip_prefix(selector, "usb://"@) {
        Some(rest) => match parse_usb_spec(rest) {
            Ok(t) => Ok(Resolution::Usb(t)),
            Err(m) => Err(Failure::InvalidArgument(m)),
        },
        None => match strip_prefix(selector, "tcp://"@) {
            Some(rest) => match parse_tcp_spec(rest) {
                Ok((host, port)) => Ok(Resolution::Tcp(host, port)),
                Err(m) => Err(Failure::InvalidArgument(m)),
            },
            None => match parse_tcp_spec(selector) {
                Ok((host, port)) => Ok(Resolution::Tcp(host, port)),
                Err(_) => {
                    let candidates = selector_candidates(ps, selector);
                    if candidates.len() == 0 {
                        Err(
                            Failure::NotFound(
                                "no printer matched selector '"@ + selector + "'"@,
                            ),
                        )
                    } else if candidates.len() == 1 {
                        match resolve_discovered_spec(ps[candidates[0]].id@) {
                            Ok(r) => Ok(r),
                            Err(m) => Err(Failure::InvalidArgument(m)),
                        }
                    } else {
                        Err(
                            Failure::InvalidArgument(
                                "printer selector '"@ + selector
                                    + "' is ambiguous; use a full id"@,
                            ),
                        )
                    }
                },
            },
        },
    }
}

proof fn lemma_matches_ignore_selector_case(ps: Seq<DiscoveredPrinter>, s: Seq<char>)
    ensures
        id_matches_in(ps, s) == id_matches_in(ps, ascii_lower(s)),
        name_matches_in(ps, s) == name_matches_in(ps, ascii_lower(s)),
    decreases ps.len(),
{
    lemma_ascii_lower_idempotent(s);
    if ps.len() > 0 {
        lemma_matches_ignore_selector_case(ps.drop_last(), s);
    }
}

/// A selector that names no printer directly picks a discovered printer the same way
/// whatever its ASCII case: it picks the same candidates as its lower-case form, and
/// resolves to the same printer, or fails in the same way.
pub proof fn law_selector_case_ignored(s: Seq<char>, ps: Seq<DiscoveredPrinter>)
    requires
        strip_prefix(s, "usb://"@) is None,
        strip_prefix(s, "tcp://"@) is None,
        parse_tcp_spec(s) is Err,
        strip_prefix(ascii_lower(s), "usb://"@) is None,
        strip_prefix(ascii_lower(s), "tcp://"@) is None,
        parse_tcp_spec(ascii_lower(s)) is Err,
    ensures
        selector_candidates(ps, s) == selector_candidates(ps, ascii_lower(s)),
        match (resolve_printer_spec(s, ps), resolve_printer_spec(ascii_lower(s), ps)) {
            (Ok(a), Ok(b)) => a == b,
            (Err(Failure::NotFound(_)), Err(Failure::NotFound(_))) => true,
            (Err(Failure::InvalidArgument(_)), Err(Failure::InvalidArgument(_))) => true,
            _ => false,
        },
{
    lemma_matches_ignore_selector_case(ps, s);
}

/// `host:port` written out reads back as that host and port.
pub proof fn lemma_tcp_text_reads_back(host: Seq<char>, port: u16)
    requires
        host.len() > 0,
        port > 0,
    ensures
        parse_tcp_spec(host + ":"@ + decimal(port as nat)) == Ok::<(Seq<char>, u16), Seq<char>>(
            (host, port),
        ),
{
    reveal_strlit(":");
    let d = decimal(port as nat);
    let text = host + ":"@ + d;
    lemma_decimal_reads_back(port as nat);
    lemma_last_index_of_append(host + ":"@, d, ':');
    assert((host + ":"@).last() == ':');
    assert(last_index_of(text, ':') == Some(host.len() as int));
    assert(text.subrange(0, host.len() as int) =~= host);
    assert(text.subrange(host.len() as int + 1, text.len() as int) =~= d);
    assert(d[0] != '+');
}

/// The id of a resolved network printer leads back to it: `tcp://host:port`, resolved
/// as the id of a discovered printer or as a selector, gives the same host and port.
pub proof fn law_tcp_id_resolves_back(host: Seq<char>, port: u16, ps: Seq<DiscoveredPrinter>)
    requires
        host.len() > 0,
        port > 0,
    ensures
        resolve_discovered_spec(tcp_id(host, port)) == Ok::<Resolution, Seq<char>>(
            Resolution::Tcp(host, port),
        ),
        resolve_printer_spec(tcp_id(host, port), ps) == Ok::<Resolution, Failure>(
            Resolution::Tcp(host, port),
        ),
{
    reveal_strlit("tcp://");
    reveal_strlit("usb://");
    let rest = host + ":"@ + decimal(port as nat);
    let id = tcp_id(host, port);
    assert(id =~= "tcp://"@ + rest);
    assert(id.subrange(0, 6) =~= "tcp://"@);
    assert(id.subrange(6, id.len() as int) =~= rest);
    assert(strip_prefix(id, "tcp://"@) == Some(rest));
    assert(id[0] == 't');
    assert(!starts_with(id, "usb://"@)) by {
        if starts_with(id, "usb://"@) {
            assert(id.subrange(0, 6)[0] == 'u');
        }
    }
    lemma_tcp_text_reads_back(host, port);
}

/// A USB target with the same vendor and product ids and no bus or address.
pub open spec fn usb_ids_only(t: UsbTarget) -> UsbTarget {
    UsbTarget {
        vendor_id: t.vendor_id,
        product_id: t.product_id,
        bus_number: None,
        device_address: None,
    }
}

/// The id of a resolved USB printer leads back to its vendor and product ids:
/// `usb://vvvv:pppp`, resolved as the id of a discovered printer or as a selector,
/// gives the same ids, with no bus or address.
pub proof fn law_usb_id_resolves_back(t: UsbTarget, ps: Seq<DiscoveredPrinter>)
    ensures
        resolve_discovered_spec(usb_id(t)) == Ok::<Resolution, Seq<char>>(
            Resolution::Usb(usb_ids_only(t)),
        ),
        resolve_printer_spec(usb_id(t), ps) == Ok::<Resolution, Failure>(
            Resolution::Usb(usb_ids_only(t)),
        ),
{
    reveal_strlit("tcp://");
    reveal_strlit("usb://");
    reveal_strlit(":");
    let hv = hex4(t.vendor_id);
    let hp = hex4(t.product_id);
    lemma_hex4_reads_back(t.vendor_id);
    lemma_hex4_reads_back(t.product_id);
    let rest = hv + ":"@ + hp;
    let id = usb_id(t);
    assert(id =~= "usb://"@ + rest);
    assert(id.subrange(0, 6) =~= "usb://"@);
    assert(id.subrange(6, id.len() as int) =~= rest);
    assert(strip_prefix(id, "usb://"@) == Some(rest));
    assert(!starts_with(id, "tcp://"@)) by {
        if starts_with(id, "tcp://"@) {
            assert(id.subrange(0, 6)[0] == 't');
        }
    }
    assert(":"@ =~= seq![':']);
    lemma_split_char_none(hv, ':');
    lemma_split_char_append(hv, hp, ':');
    assert(split_char(rest, ':') =~= seq![hv, hp]);
}

/// The id a USB printer is listed under: `usb://vvvv:pppp:bus:address`.
pub open spec fn usb_listing_id(vendor_id: u16, product_id: u16, bus_number: u8, device_address: u8) -> Seq<char> {
    "usb://"@ + hex4(vendor_id) + ":"@ + hex4(product_id) + ":"@ + decimal(bus_number as nat)
        + ":"@ + decimal(device_address as nat)
}

/// The id a USB printer is listed under leads back to that device: resolved as the id
/// of a discovered printer or as a selector, it gives the same vendor and product ids,
/// bus and address.
pub proof fn law_usb_listing_resolves_back(
    vendor_id: u16,
    product_id: u16,
    bus_number: u8,
    device_address: u8,
    ps: Seq<DiscoveredPrinter>,
)
    ensures
        ({
            let id = usb_listing_id(vendor_id, product_id, bus_number, device_address);
            let t = UsbTarget {
                vendor_id,
                product_id,
                bus_number: Some(bus_number),
                device_address: Some(device_address),
            };
            &&& resolve_discovered_spec(id) == Ok::<Resolution, Seq<char>>(Resolution::Usb(t))
            &&& resolve_printer_spec(id, ps) == Ok::<Resolution, Failure>(Resolution::Usb(t))
        }),
{
    reveal_strlit("tcp://");
    reveal_strlit("usb://");
    reveal_strlit(":");
    let hv = hex4(vendor_id);
    let hp = hex4(product_id);
    let db = decimal(bus_number as nat);
    let da = decimal(device_address as nat);
    lemma_hex4_reads_back(vendor_id);
    lemma_hex4_reads_back(product_id);
    lemma_decimal_reads_back(bus_number as nat);
    lemma_decimal_reads_back(device_address as nat);
    lemma_decimal_plain(bus_number as nat, 0xFF);
    lemma_decimal_plain(device_address as nat, 0xFF);
    let rest = hv + ":"@ + hp + ":"@ + db + ":"@ + da;
    let id = usb_listing_id(vendor_id, product_id, bus_number, device_address);
    assert(id =~= "usb://"@ + rest);
    assert(id.subrange(0, 6) =~= "usb://"@);
    assert(id.subrange(6, id.len() as int) =~= rest);
    assert(strip_prefix(id, "usb://"@) == Some(rest));
    assert(!starts_with(id, "tcp://"@)) by {
        if starts_with(id, "tcp://"@) {
            assert(id.subrange(0, 6)[0] == 't');
        }
    }
    assert(":"@ =~= seq![':']);
    lemma_split_char_none(hv, ':');
    lemma_split_char_append(hv, hp, ':');
    lemma_split_char_append(hv + ":"@ + hp, db, ':');
    lemma_split_char_append(hv + ":"@ + hp + ":"@ + db, da, ':');
    assert(split_char(rest, ':') =~= seq![hv, hp, db, da]);
    assert(strip_prefix(db, "0x"@) is None);
    assert(strip_prefix(da, "0x"@) is None);
}

// ---------------------------------------------------------------------------
// Parsing
// ---------------------------------------------------------------------------
fn invalid_with_quote(prefix: &str, v: &Vec<char>, lo: usize, hi: usize, suffix: &str) -> (e:
    SlipbridgeError)
    requires
        lo <= hi <= v@.len(),
    ensures
        is_invalid_argument(e, prefix@ + v@.subrange(lo as int, hi as int) + suffix@),
{
    let mut m = string_of(prefix);
    push_range(&mut m, v, lo, hi);
    push_str(&mut m, suffix);
    SlipbridgeError::invalid_argument(m)
}

fn field_error(field: &str, v: &Vec<char>, lo: usize, hi: usize, suffix: &str) -> (e:
    SlipbridgeError)
    requires
        lo <= hi <= v@.len(),
    ensures
        is_invalid_argument(
            e,
            "invalid "@ + field@ + " '"@ + v@.subrange(lo as int, hi as int) + suffix@,
        ),
{
    let mut m = string_of("invalid ");
    push_str(&mut m, field);
    push_str(&mut m, " '");
    push_range(&mut m, v, lo, hi);
    push_str(&mut m, suffix);
    SlipbridgeError::invalid_argument(m)
}

fn parse_u16_hex_in(v: &Vec<char>, lo: usize, hi: usize, field: &str) -> (r: Result<
    u16,
    SlipbridgeError,
>)
    requires
        lo <= hi <= v@.len(),
    ensures
        match parse_u16_hex_spec(v@.subrange(lo as int, hi as int), field@) {
            Ok(n) => r == Ok::<u16, SlipbridgeError>(n),
            Err(m) => r matches Err(e) && is_invalid_argument(e, m),
        },
{
    let (a, b) = trim_bounds(v, lo, hi);
    let zero_x = chars_of("0x");
    let c = trim_start_matches_bound(v, a, b, &zero_x);
    match parse_unsigned_in(v, c, b, 16, 0xFFFF) {
        Some(n) => Ok(n as u16),
        None => Err(field_error(field, v, c, b, "', expected hex")),
    }
}

fn parse_u8_auto_in(v: &Vec<char>, lo: usize, hi: usize, field: &str) -> (r: Result<
    u8,
    SlipbridgeError,
>)
    requires
        lo <= hi <= v@.len(),
    ensures
        match parse_u8_auto_spec(v@.subrange(lo as int, hi as int), field@) {
            Ok(n) => r == Ok::<u8, SlipbridgeError>(n),
            Err(m) => r matches Err(e) && is_invalid_argument(e, m),
        },
{
    let (a, b) = trim_bounds(v, lo, hi);
    let zero_x = chars_of("0x");
    let parsed = if has_prefix(v, a, b, &zero_x) {
        assert(v@.subrange(a as int, b as int).subrange(zero_x@.len() as int, b - a) =~= v@.subrange(
            a + zero_x@.len(),
            b as int,
        ));
        parse_unsigned_in(v, a + zero_x.len(), b, 16, 0xFF)
    } else {
        parse_unsigned_in(v, a, b, 10, 0xFF)
    };
    match parsed {
        Some(n) => Ok(n as u8),
        None => Err(field_error(field, v, a, b, "'")),
    }
}

fn parse_tcp_in(v: &Vec<char>, lo: usize, hi: usize) -> (r: Result<TcpTarget, SlipbridgeError>)
    requires
        lo <= hi <= v@.len(),
    ensures
        match parse_tcp_spec(v@.subrange(lo as int, hi as int)) {
            Ok((host, port)) => r matches Ok(t) && t.host@ == host && t.port == port,
            Err(m) => r matches Err(e) && is_invalid_argument(e, m),
        },
{
    let ghost s = v@.subrange(lo as int, hi as int);
    let i = match last_index(v, lo, hi, ':') {
        Some(i) => i,
        None => {
            return Err(
                SlipbridgeError::invalid_argument(string_of("tcp selector must be host:port")),
            );
        },
    };
    proof {
        lemma_last_index_of_bounds(s, ':');
    }
    assert(last_index_of(s, ':') == Some((i - lo) as int));
    assert(s.subrange(0, i - lo) =~= v@.subrange(lo as int, i as int));
    assert(s.subrange(i - lo + 1, s.len() as int) =~= v@.subrange(i + 1, hi as int));
    if i == lo {
        return Err(
            SlipbridgeError::invalid_argument(string_of("tcp selector host cannot be empty")),
        );
    }
    let port = match parse_unsigned_in(v, i + 1, hi, 10, 0xFFFF) {
        Some(p) => p,
        None => {
            return Err(invalid_with_quote("invalid tcp port '", v, i + 1, hi, "': expected 1-65535"));
        },
    };
    if port == 0 {
        return Err(
            SlipbridgeError::invalid_argument(string_of("tcp port must be greater than 0")),
        );
    }
    Ok(TcpTarget { host: string_from_range(v, lo, i), port: port as u16 })
}

fn parse_usb_in(v: &Vec<char>, lo: usize, hi: usize) -> (r: Result<UsbTarget, SlipbridgeError>)
    requires
        lo <= hi <= v@.len(),
    ensures
        match parse_usb_spec(v@.subrange(lo as int, hi as int)) {
            Ok(t) => r == Ok::<UsbTarget, SlipbridgeError>(t),
            Err(m) => r matches Err(e) && is_invalid_argument(e, m),
        },
{
    let fields = split_bounds(v, lo, hi, ':');
    let ghost pieces = split_char(v@.subrange(lo as int, hi as int), ':');
    if fields.len() != 2 && fields.len() != 4 {
        return Err(
            SlipbridgeError::invalid_argument(
                string_of("USB selector must be VID:PID or VID:PID:BUS:ADDRESS"),
            ),
        );
    }
    assert(v@.subrange(fields@[0].0 as int, fields@[0].1 as int) == pieces[0]);
    assert(v@.subrange(fields@[1].0 as int, fields@[1].1 as int) == pieces[1]);
    let vendor_id = parse_u16_hex_in(v, fields[0].0, fields[0].1, "vendor id")?;
    let product_id = parse_u16_hex_in(v, fields[1].0, fields[1].1, "product id")?;
    if fields.len() == 4 {
        assert(v@.subrange(fields@[2].0 as int, fields@[2].1 as int) == pieces[2]);
        assert(v@.subrange(fields@[3].0 as int, fields@[3].1 as int) == pieces[3]);
        let bus = parse_u8_auto_in(v, fields[2].0, fields[2].1, "bus number")?;
        let address = parse_u8_auto_in(v, fields[3].0, fields[3].1, "device address")?;
        Ok(
            UsbTarget {
                vendor_id,
                product_id,
                bus_number: Some(bus),
                device_address: Some(address),
            },
        )
    } else {
        Ok(UsbTarget { vendor_id, product_id, bus_number: None, device_address: None })
    }
}

/// Parses a hexadecimal id such as ` 0x04b8 `; `field` names it in the error.
pub fn parse_u16_hex(value: &str, field: &str) -> (r: Result<u16, SlipbridgeError>)
    ensures
        match parse_u16_hex_spec(value@, field@) {
            Ok(n) => r == Ok::<u16, SlipbridgeError>(n),
            Err(m) => r matches Err(e) && is_invalid_argument(e, m),
        },
{
    let v = chars_of(value);
    assert(v@.subrange(0, v@.len() as int) =~= v@);
    parse_u16_hex_in(&v, 0, v.len(), field)
}

/// Parses a bus number or device address, in hexadecimal after `0x`, else in decimal.
pub fn parse_u8_auto(value: &str, field: &str) -> (r: Result<u8, SlipbridgeError>)
    ensures
        match parse_u8_auto_spec(value@, field@) {
            Ok(n) => r == Ok::<u8, SlipbridgeError>(n),
            Err(m) => r matches Err(e) && is_invalid_argument(e, m),
        },
{
    let v = chars_of(value);
    assert(v@.subrange(0, v@.len() as int) =~= v@);
    parse_u8_auto_in(&v, 0, v.len(), field)
}

/// Parses `host:port`.
pub fn parse_tcp_target(value: &str) -> (r: Result<TcpTarget, SlipbridgeError>)
    ensures
        match parse_tcp_spec(value@) {
            Ok((host, port)) => r matches Ok(t) && t.host@ == host && t.port == port,
            Err(m) => r matches Err(e) && is_invalid_argument(e, m),
        },
{
    let v = chars_of(value);
    assert(v@.subrange(0, v@.len() as int) =~= v@);
    parse_tcp_in(&v, 0, v.len())
}

/// Parses `VID:PID` or `VID:PID:BUS:ADDRESS`.
pub fn parse_usb_target(value: &str) -> (r: Result<UsbTarget, SlipbridgeError>)
    ensures
        match parse_usb_spec(value@) {
            Ok(t) => r == Ok::<UsbTarget, SlipbridgeError>(t),
            Err(m) => r matches Err(e) && is_invalid_argument(e, m),
        },
{
    let v = chars_of(value);
    assert(v@.subrange(0, v@.len() as int) =~= v@);
    parse_usb_in(&v, 0, v.len())
}

// ---------------------------------------------------------------------------
// Resolution
// ---------------------------------------------------------------------------
fn resolved_usb(t: UsbTarget) -> (r: ResolvedPrinter)
    ensures
        resolves_to(r, Resolution::Usb(t)),
{
    let mut id = string_of("usb://");
    push_hex4(&mut id, t.vendor_id);
    push_str(&mut id, ":");
    push_hex4(&mut id, t.product_id);
    ResolvedPrinter { id, transport: TransportKind::Usb, target: PrinterTarget::Usb(t) }
}

fn resolved_tcp(t: TcpTarget) -> (r: ResolvedPrinter)
    ensures
        resolves_to(r, Resolution::Tcp(t.host@, t.port)),
{
    let mut id = string_of("tcp://");
    push_str(&mut id, t.host.as_str());
    push_str(&mut id, ":");
    push_decimal(&mut id, t.port as u128);
    ResolvedPrinter { id, transport: TransportKind::Tcp, target: PrinterTarget::Tcp(t) }
}

/// Turns the id of a discovered printer (`tcp://…` or `usb://…`) into a printer to connect to.
pub fn resolve_discovered_printer(printer: &DiscoveredPrinter) -> (r: Result<
    ResolvedPrinter,
    SlipbridgeError,
>)
    ensures
        match resolve_discovered_spec(printer.id@) {
            Ok(res) => r matches Ok(p) && resolves_to(p, res),
            Err(m) => r matches Err(e) && is_invalid_argument(e, m),
        },
{
    let v = chars_of(printer.id.as_str());
    let n = v.len();
    assert(v@.subrange(0, n as int) =~= v@);
    let tcp = chars_of("tcp://");
    if has_prefix(&v, 0, n, &tcp) {
        let t = parse_tcp_in(&v, tcp.len(), n)?;
        return Ok(resolved_tcp(t));
    }
    let usb = chars_of("usb://");
    if has_prefix(&v, 0, n, &usb) {
        let t = parse_usb_in(&v, usb.len(), n)?;
        return Ok(resolved_usb(t));
    }
    Err(invalid_with_quote("unsupported discovered printer id '", &v, 0, n, "'"))
}

fn id_matches_of(selector: &Vec<char>, discovered: &[DiscoveredPrinter]) -> (r: Vec<usize>)
    ensures
        r@.len() == id_matches_in(discovered@, selector@).len(),
        forall|k: int|
            0 <= k < r@.len() ==> #[trigger] r@[k] as int == id_matches_in(discovered@, selector@)[k]
                && r@[k] < discovered@.len(),
{
    let mut found: Vec<usize> = Vec::new();
    let mut i: usize = 0;
    while i < discovered.len()
        invariant
            i <= discovered@.len(),
            found@.len() == id_matches_in(discovered@.subrange(0, i as int), selector@).len(),
            forall|k: int|
                0 <= k < found@.len() ==> #[trigger] found@[k] as int == id_matches_in(
                    discovered@.subrange(0, i as int),
                    selector@,
                )[k] && found@[k] < i,
        decreases discovered@.len() - i,
    {
        let ghost before = discovered@.subrange(0, i as int);
        let ghost after = discovered@.subrange(0, i + 1);
        assert(after.drop_last() =~= before);
        assert(after.last() == discovered@[i as int]);
        let id = chars_of(discovered[i].id.as_str());
        if eq_ignore_ascii_case(&id, selector) {
            found.push(i);
        }
        i = i + 1;
    }
    assert(discovered@.subrange(0, i as int) =~= discovered@);
    found
}

fn name_matches_of(selector: &Vec<char>, discovered: &[DiscoveredPrinter]) -> (r: Vec<usize>)
    ensures
        r@.len() == name_matches_in(discovered@, selector@).len(),
        forall|k: int|
            0 <= k < r@.len() ==> #[trigger] r@[k] as int == name_matches_in(
                discovered@,
                selector@,
            )[k] && r@[k] < discovered@.len(),
{
    let mut found: Vec<usize> = Vec::new();
    let mut i: usize = 0;
    while i < discovered.len()
        invariant
            i <= discovered@.len(),
            found@.len() == name_matches_in(discovered@.subrange(0, i as int), selector@).len(),
            forall|k: int|
                0 <= k < found@.len() ==> #[trigger] found@[k] as int == name_matches_in(
                    discovered@.subrange(0, i as int),
                    selector@,
                )[k] && found@[k] < i,
        decreases discovered@.len() - i,
    {
        let ghost before = discovered@.subrange(0, i as int);
        let ghost after = discovered@.subrange(0, i + 1);
        assert(after.drop_last() =~= before);
        assert(after.last() == discovered@[i as int]);
        let name = chars_of(discovered[i].display_name.as_str());
        if contains_ignore_ascii_case(&name, selector) {
            found.push(i);
        }
        i = i + 1;
    }
    assert(discovered@.subrange(0, i as int) =~= discovered@);
    found
}

/// Resolves a printer selector: `usb://VID:PID[:BUS:ADDRESS]`, `tcp://host:port` or
/// `host:port` directly, otherwise the one discovered printer whose id matches it, or
/// failing that whose display name contains it (ASCII case ignored in both).
pub fn resolve_printer(selector: &str, discovered: &[DiscoveredPrinter]) -> (r: Result<
    ResolvedPrinter,
    SlipbridgeError,
>)
    ensures
        match resolve_printer_spec(selector@, discovered@) {
            Ok(res) => r matches Ok(p) && resolves_to(p, res),
            Err(f) => r matches Err(e) && fails_with(e, f),
        },
{
    let v = chars_of(selector);
    let n = v.len();
    assert(v@.subrange(0, n as int) =~= v@);
    let usb = chars_of("usb://");
    if has_prefix(&v, 0, n, &usb) {
        let t = parse_usb_in(&v, usb.len(), n)?;
        return Ok(resolved_usb(t));
    }
    let tcp = chars_of("tcp://");
    if has_prefix(&v, 0, n, &tcp) {
        let t = parse_tcp_in(&v, tcp.len(), n)?;
        return Ok(resolved_tcp(t));
    }
    if let Ok(t) = parse_tcp_in(&v, 0, n) {
        return Ok(resolved_tcp(t));
    }
    let mut candidates = id_matches_of(&v, discovered);
    if candidates.len() == 0 {
        candidates = name_matches_of(&v, discovered);
    }
    let ghost spec_candidates = selector_candidates(discovered@, selector@);
    assert(candidates@.len() == spec_candidates.len());
    if candidates.len() == 0 {
        let mut m = string_of("no printer matched selector '");
        push_str(&mut m, selector);
        push_str(&mut m, "'");
        return Err(SlipbridgeError::not_found(m));
    }
    if candidates.len() == 1 {
        assert(candidates@[0] as int == spec_candidates[0]);
        return resolve_discovered_printer(&discovered[candidates[0]]);
    }
    let mut m = string_of("printer selector '");
    push_str(&mut m, selector);
    push_str(&mut m, "' is ambiguous; use a full id");
    Err(SlipbridgeError::invalid_argument(m))
}

// ---------------------------------------------------------------------------
// The list of discovered printers
// ---------------------------------------------------------------------------
/// The printer at index `j` of `ps` is the first one listed with its id.
pub open spec fn first_with_id(ps: Seq<DiscoveredPrinter>, j: int) -> bool {
    0 <= j < ps.len() && forall|k: int| 0 <= k < j ==> #[trigger] ps[k].id@ != ps[j].id@
}

/// `out` is sorted by id, each id at most once.
pub open spec fn sorted_by_id(out: Seq<DiscoveredPrinter>) -> bool {
    forall|a: int, b: int| 0 <= a < b < out.len() ==> seq_less(#[trigger] out[a].id@, #[trigger] out[b].id@)
}

/// `out[k]` is the first printer listed under its id among `ps[0..n]`.
pub open spec fn kept_from(out: Seq<DiscoveredPrinter>, ps: Seq<DiscoveredPrinter>, n: int, k: int) -> bool {
    exists|j: int| 0 <= j < n && #[trigger] first_with_id(ps, j) && out[k] == ps[j]
}

/// Some printer in `out` has the id `id`.
pub open spec fn id_listed(out: Seq<DiscoveredPrinter>, id: Seq<char>) -> bool {
    exists|k: int| 0 <= k < out.len() && #[trigger] out[k].id@ == id
}

/// `out` lists the first printer of each id among `ps[0..n]`, and nothing else.
pub open spec fn lists_first_of_each_id(
    out: Seq<DiscoveredPrinter>,
    ps: Seq<DiscoveredPrinter>,
    n: int,
) -> bool {
    &&& forall|k: int| 0 <= k < out.len() ==> #[trigger] kept_from(out, ps, n, k)
    &&& forall|j: int| 0 <= j < n ==> #[trigger] id_listed(out, ps[j].id@)
}

/// `out` holds, sorted by id, the first printer listed under each id of `ps`.
pub open spec fn is_printer_list_of(out: Seq<DiscoveredPrinter>, ps: Seq<DiscoveredPrinter>) -> bool {
    sorted_by_id(out) && lists_first_of_each_id(out, ps, ps.len() as int)
}

proof fn lemma_list_keeps_duplicate(
    out: Seq<DiscoveredPrinter>,
    input: Seq<DiscoveredPrinter>,
    i: int,
    pos: int,
)
    requires
        0 <= i < input.len(),
        0 <= pos < out.len(),
        out[pos].id@ == input[i].id@,
        lists_first_of_each_id(out, input, i),
    ensures
        lists_first_of_each_id(out, input, i + 1),
{
    assert forall|k: int| 0 <= k < out.len() implies #[trigger] kept_from(out, input, i + 1, k) by {
        assert(kept_from(out, input, i, k));
        let j = choose|j: int| 0 <= j < i && #[trigger] first_with_id(input, j) && out[k] == input[j];
        assert(first_with_id(input, j));
    }
    assert forall|j: int| 0 <= j < i + 1 implies #[trigger] id_listed(out, input[j].id@) by {
        if j == i {
            assert(out[pos].id@ == input[j].id@);
        }
    }
}

proof fn lemma_list_takes_new(
    out: Seq<DiscoveredPrinter>,
    input: Seq<DiscoveredPrinter>,
    i: int,
    pos: int,
)
    requires
        0 <= i < input.len(),
        0 <= pos <= out.len(),
        sorted_by_id(out),
        lists_first_of_each_id(out, input, i),
        forall|q: int| 0 <= q < pos ==> seq_less(#[trigger] out[q].id@, input[i].id@),
        pos < out.len() ==> out[pos].id@ != input[i].id@ && !seq_less(out[pos].id@, input[i].id@),
    ensures
        sorted_by_id(out.insert(pos, input[i])),
        lists_first_of_each_id(out.insert(pos, input[i]), input, i + 1),
{
    let key = input[i].id@;
    let new_out = out.insert(pos, input[i]);
    assert forall|q: int| pos <= q < out.len() implies seq_less(key, #[trigger] out[q].id@) by {
        lemma_seq_less_total(out[pos].id@, key);
        if q > pos {
            lemma_seq_less_transitive(key, out[pos].id@, out[q].id@);
        }
    }
    assert forall|q: int| 0 <= q < out.len() implies #[trigger] out[q].id@ != key by {
        lemma_seq_less_irreflexive(key);
    }
    assert(first_with_id(input, i)) by {
        assert forall|j: int| 0 <= j < i implies #[trigger] input[j].id@ != input[i].id@ by {
            assert(id_listed(out, input[j].id@));
            let k = choose|k: int| 0 <= k < out.len() && #[trigger] out[k].id@ == input[j].id@;
            assert(out[k].id@ != key);
        }
    }
    assert forall|a: int, b: int| 0 <= a < b < new_out.len() implies seq_less(
        #[trigger] new_out[a].id@,
        #[trigger] new_out[b].id@,
    ) by {
        if b < pos {
            assert(new_out[a] == out[a] && new_out[b] == out[b]);
        } else if b == pos {
            assert(new_out[a] == out[a]);
        } else if a < pos {
            assert(new_out[a] == out[a] && new_out[b] == out[b - 1]);
            lemma_seq_less_transitive(out[a].id@, key, out[b - 1].id@);
        } else if a == pos {
            assert(new_out[b] == out[b - 1]);
        } else {
            assert(new_out[a] == out[a - 1] && new_out[b] == out[b - 1]);
        }
    }
    assert forall|k: int| 0 <= k < new_out.len() implies #[trigger] kept_from(new_out, input, i + 1, k) by {
        if k == pos {
            assert(new_out[k] == input[i]);
            assert(first_with_id(input, i));
        } else {
            let k0 = if k < pos { k } else { k - 1 };
            assert(new_out[k] == out[k0]);
            assert(kept_from(out, input, i, k0));
            let j = choose|j: int| 0 <= j < i && #[trigger] first_with_id(input, j) && out[k0] == input[j];
            assert(first_with_id(input, j));
        }
    }
    assert forall|j: int| 0 <= j < i + 1 implies #[trigger] id_listed(new_out, input[j].id@) by {
        if j == i {
            assert(new_out[pos].id@ == input[j].id@);
        } else {
            assert(id_listed(out, input[j].id@));
            let k = choose|k: int| 0 <= k < out.len() && #[trigger] out[k].id@ == input[j].id@;
            if k < pos {
                assert(new_out[k] == out[k]);
            } else {
                assert(new_out[k + 1] == out[k]);
            }
        }
    }
}

fn insertion_point(keys: &Vec<Vec<char>>, key: &Vec<char>) -> (pos: usize)
    ensures
        pos <= keys@.len(),
        forall|q: int| 0 <= q < pos ==> seq_less((#[trigger] keys@[q])@, key@),
        pos < keys@.len() ==> !seq_less(keys@[pos as int]@, key@),
{
    let mut pos: usize = 0;
    while pos < keys.len() && less_chars(&keys[pos], key)
        invariant
            pos <= keys@.len(),
            forall|q: int| 0 <= q < pos ==> seq_less((#[trigger] keys@[q])@, key@),
        decreases keys@.len() - pos,
    {
        pos = pos + 1;
    }
    pos
}

/// Keeps the first printer listed under each id and sorts the result by id.
pub fn finalize_printer_list(printers: Vec<DiscoveredPrinter>) -> (r: Vec<DiscoveredPrinter>)
    ensures
        is_printer_list_of(r@, printers@),
{
    let ghost input = printers@;
    assert(input.len() == printers.len());
    let mut rest = printers;
    let mut out: Vec<DiscoveredPrinter> = Vec::new();
    let mut keys: Vec<Vec<char>> = Vec::new();
    let mut i: usize = 0;
    while rest.len() > 0
        invariant
            i <= input.len(),
            input.len() <= usize::MAX,
            rest@ == input.subrange(i as int, input.len() as int),
            keys@.len() == out@.len(),
            forall|k: int| 0 <= k < keys@.len() ==> (#[trigger] keys@[k])@ == out@[k].id@,
            sorted_by_id(out@),
            lists_first_of_each_id(out@, input, i as int),
        decreases rest@.len(),
    {
        let p = rest.remove(0);
        assert(p == input[i as int]);
        assert(rest@ =~= input.subrange(i + 1, input.len() as int));
        let key = chars_of(p.id.as_str());
        let pos = insertion_point(&keys, &key);
        let ghost old_out = out@;
        let ghost old_keys = keys@;
        assert forall|q: int| 0 <= q < pos implies seq_less(#[trigger] old_out[q].id@, key@) by {
            assert(keys@[q]@ == old_out[q].id@);
        }
        if pos < keys.len() && eq_chars(&keys[pos], &key) {
            proof {
                lemma_list_keeps_duplicate(old_out, input, i as int, pos as int);
            }
        } else {
            proof {
                lemma_list_takes_new(old_out, input, i as int, pos as int);
            }
            out.insert(pos, p);
            keys.insert(pos, key);
            assert forall|k: int| 0 <= k < keys@.len() implies (#[trigger] keys@[k])@ == out@[k].id@ by {
                if k < pos {
                    assert(keys@[k] == old_keys[k]);
                } else if k > pos {
                    assert(keys@[k] == old_keys[k - 1]);
                }
            }
        }
        i = i + 1;
    }
    out
}

proof fn lemma_sorted_ids_distinct(out: Seq<DiscoveredPrinter>, a: int, b: int)
    requires
        sorted_by_id(out),
        0 <= a < b < out.len(),
    ensures
        out[a].id@ != out[b].id@,
{
    lemma_seq_less_irreflexive(out[a].id@);
}

proof fn lemma_same_position(a: Seq<DiscoveredPrinter>, b: Seq<DiscoveredPrinter>, ps: Seq<DiscoveredPrinter>, k: int)
    requires
        is_printer_list_of(a, ps),
        is_printer_list_of(b, ps),
        0 <= k < a.len(),
        0 <= k < b.len(),
        forall|i: int| 0 <= i < k ==> #[trigger] a[i].id@ == b[i].id@,
    ensures
        a[k].id@ == b[k].id@,
{
    // Where each list has the other's k-th id: not before k, as the prefixes agree.
    assert(kept_from(a, ps, ps.len() as int, k));
    let ja = choose|j: int| 0 <= j < ps.len() && #[trigger] first_with_id(ps, j) && a[k] == ps[j];
    assert(id_listed(b, ps[ja].id@));
    let jb = choose|i: int| 0 <= i < b.len() && #[trigger] b[i].id@ == ps[ja].id@;
    assert(kept_from(b, ps, ps.len() as int, k));
    let ka = choose|j: int| 0 <= j < ps.len() && #[trigger] first_with_id(ps, j) && b[k] == ps[j];
    assert(id_listed(a, ps[ka].id@));
    let ia = choose|i: int| 0 <= i < a.len() && #[trigger] a[i].id@ == ps[ka].id@;
    if jb < k {
        assert(a[jb].id@ == b[jb].id@);
        lemma_sorted_ids_distinct(a, jb, k);
    }
    if ia < k {
        assert(a[ia].id@ == b[ia].id@);
        lemma_sorted_ids_distinct(b, ia, k);
    }
    if a[k].id@ != b[k].id@ {
        lemma_seq_less_total(a[k].id@, b[k].id@);
        if seq_less(a[k].id@, b[k].id@) {
            assert(jb > k);
            assert(seq_less(b[k].id@, b[jb].id@));
        } else {
            assert(ia > k);
            assert(seq_less(a[k].id@, a[ia].id@));
        }
    }
}

proof fn lemma_same_ids(a: Seq<DiscoveredPrinter>, b: Seq<DiscoveredPrinter>, ps: Seq<DiscoveredPrinter>, n: int)
    requires
        is_printer_list_of(a, ps),
        is_printer_list_of(b, ps),
        0 <= n <= a.len(),
        n <= b.len(),
    ensures
        forall|i: int| 0 <= i < n ==> #[trigger] a[i].id@ == b[i].id@,
    decreases n,
{
    if n > 0 {
        lemma_same_ids(a, b, ps, n - 1);
        lemma_same_position(a, b, ps, n - 1);
    }
}

proof fn lemma_first_occurrence_unique(ps: Seq<DiscoveredPrinter>, j1: int, j2: int)
    requires
        first_with_id(ps, j1),
        first_with_id(ps, j2),
        ps[j1].id@ == ps[j2].id@,
    ensures
        j1 == j2,
{
    if j1 < j2 {
        assert(ps[j1].id@ != ps[j2].id@);
    } else if j2 < j1 {
        assert(ps[j2].id@ != ps[j1].id@);
    }
}

/// The printer list of a set of printers is determined by them: two lists that both
/// hold, sorted by id, the first printer listed under each id are the same list.
pub proof fn law_printer_list_determined(
    a: Seq<DiscoveredPrinter>,
    b: Seq<DiscoveredPrinter>,
    ps: Seq<DiscoveredPrinter>,
)
    requires
        is_printer_list_of(a, ps),
        is_printer_list_of(b, ps),
    ensures
        a == b,
{
    let n = if a.len() <= b.len() {
        a.len() as int
    } else {
        b.len() as int
    };
    lemma_same_ids(a, b, ps, n);
    if a.len() < b.len() {
        assert(kept_from(b, ps, ps.len() as int, n));
        let j = choose|j: int| 0 <= j < ps.len() && #[trigger] first_with_id(ps, j) && b[n] == ps[j];
        assert(id_listed(a, ps[j].id@));
        let i = choose|i: int| 0 <= i < a.len() && #[trigger] a[i].id@ == ps[j].id@;
        assert(a[i].id@ == b[i].id@);
        lemma_sorted_ids_distinct(b, i, n);
    }
    if b.len() < a.len() {
        assert(kept_from(a, ps, ps.len() as int, n));
        let j = choose|j: int| 0 <= j < ps.len() && #[trigger] first_with_id(ps, j) && a[n] == ps[j];
        assert(id_listed(b, ps[j].id@));
        let i = choose|i: int| 0 <= i < b.len() && #[trigger] b[i].id@ == ps[j].id@;
        assert(a[i].id@ == b[i].id@);
        lemma_sorted_ids_distinct(a, i, n);
    }
    assert forall|k: int| 0 <= k < a.len() implies a[k] == b[k] by {
        assert(kept_from(a, ps, ps.len() as int, k));
        assert(kept_from(b, ps, ps.len() as int, k));
        let j1 = choose|j: int| 0 <= j < ps.len() && #[trigger] first_with_id(ps, j) && a[k] == ps[j];
        let j2 = choose|j: int| 0 <= j < ps.len() && #[trigger] first_with_id(ps, j) && b[k] == ps[j];
        assert(a[k].id@ == b[k].id@);
        lemma_first_occurrence_unique(ps, j1, j2);
    }
    assert(a =~= b);
}

/// A finished printer list is its own printer list, so finishing it again changes nothing.
pub proof fn law_printer_list_stable(out: Seq<DiscoveredPrinter>, ps: Seq<DiscoveredPrinter>)
    requires
        is_printer_list_of(out, ps),
    ensures
        is_printer_list_of(out, out),
{
    assert forall|k: int| 0 <= k < out.len() implies #[trigger] kept_from(out, out, out.len() as int, k) by {
        assert forall|i: int| 0 <= i < k implies #[trigger] out[i].id@ != out[k].id@ by {
            lemma_sorted_ids_distinct(out, i, k);
        }
        assert(first_with_id(out, k));
    }
    assert forall|j: int| 0 <= j < out.len() implies #[trigger] id_listed(out, out[j].id@) by {
        assert(out[j].id@ == out[j].id@);
    }
}

// ---------------------------------------------------------------------------
// Discovery
// ---------------------------------------------------------------------------
/// The instance name in an mDNS full name: what precedes the first `._`, or else the
/// whole name without trailing dots.
pub open spec fn instance_name(fullname: Seq<char>) -> Seq<char> {
    match find_from(fullname, "._"@, 0) {
        Some(i) => fullname.subrange(0, i),
        None => trim_end_char(fullname, '.'),
    }
}

/// The instance name in an mDNS full name such as `Printer._pdl-datastream._tcp.local.`.
pub fn service_instance_name(fullname: &str) -> (r: String)
    ensures
        r@ == instance_name(fullname@),
{
    let v = chars_of(fullname);
    let n = v.len();
    assert(v@.subrange(0, n as int) =~= v@);
    let sep = chars_of("._");
    proof {
        lemma_find_from_bounds(v@, sep@, 0);
    }
    match find_in(&v, 0, n, &sep) {
        Some(i) => string_from_range(&v, 0, i),
        None => {
            let end = trim_end_char_bound(&v, 0, n, '.');
            string_from_range(&v, 0, end)
        },
    }
}

/// The ports an mDNS printer is offered on: the advertised port unless it is zero, and
/// 9100 when it answers there and was not the advertised port already.
pub open spec fn mdns_ports(service_port: u16, has_9100: bool) -> Seq<u16> {
    (if service_port > 0 {
        seq![service_port]
    } else {
        seq![]
    }) + (if service_port != 9100 && has_9100 {
        seq![9100u16]
    } else {
        seq![]
    })
}

/// An mDNS service is offered on its advertised port whenever that port is not zero,
/// whatever the 9100 probe says; 9100 is offered when the probe found it answering; and
/// no other port is offered.
pub proof fn law_advertised_port_is_listed(service_port: u16, has_9100: bool)
    ensures
        service_port > 0 ==> exists|k: int|
            0 <= k < mdns_ports(service_port, has_9100).len() && #[trigger] mdns_ports(
                service_port,
                has_9100,
            )[k] == service_port,
        has_9100 ==> exists|k: int|
            0 <= k < mdns_ports(service_port, has_9100).len() && #[trigger] mdns_ports(
                service_port,
                has_9100,
            )[k] == 9100,
        forall|k: int|
            0 <= k < mdns_ports(service_port, has_9100).len() ==> (#[trigger] mdns_ports(
                service_port,
                has_9100,
            )[k] == service_port && service_port > 0) || (mdns_ports(service_port, has_9100)[k]
                == 9100 && has_9100),
{
    let ports = mdns_ports(service_port, has_9100);
    if service_port > 0 {
        assert(ports[0] == service_port);
    }
    if has_9100 {
        if service_port == 9100 {
            assert(ports[0] == 9100);
        } else if service_port > 0 {
            assert(ports[1] == 9100);
        } else {
            assert(ports[0] == 9100);
        }
    }
}

/// `p` is the network printer `host:port` with the given name and source.
pub open spec fn is_tcp_printer(
    p: DiscoveredPrinter,
    host: Seq<char>,
    port: u16,
    name: Seq<char>,
    source: Seq<char>,
) -> bool {
    &&& p.id@ == tcp_id(host, port)
    &&& p.display_name@ == name
    &&& p.transport@ == "tcp"@
    &&& p.address@ == host + ":"@ + decimal(port as nat)
    &&& p.source matches Some(s) && s@ == source
}

/// The host an mDNS service names, without trailing dots.
pub fn mdns_host(hostname: &str) -> (r: String)
    ensures
        r@ == trim_end_char(hostname@, '.'),
{
    let v = chars_of(hostname);
    let n = v.len();
    assert(v@.subrange(0, n as int) =~= v@);
    let end = trim_end_char_bound(&v, 0, n, '.');
    string_from_range(&v, 0, end)
}

fn tcp_printer(host: &str, port: u16, name: &str, source: &str) -> (p: DiscoveredPrinter)
    ensures
        is_tcp_printer(p, host@, port, name@, source@),
{
    let mut address = string_of(host);
    push_str(&mut address, ":");
    push_decimal(&mut address, port as u128);
    let mut id = string_of("tcp://");
    push_str(&mut id, address.as_str());
    assert(id@ =~= "tcp://"@ + host@ + ":"@ + decimal(port as nat));
    DiscoveredPrinter {
        id,
        display_name: string_of(name),
        transport: string_of("tcp"),
        address,
        source: Some(string_of(source)),
    }
}

/// The printers an mDNS service stands for. `hostname`, `service_port`, `ty_property`
/// (the `ty` TXT property), `fullname` and `ty_domain` come from the service; `has_9100`
/// says whether the host answers on port 9100, which matters only when the service
/// port is another one. A service without a host name stands for no printer.
pub fn discovered_from_mdns_service(
    hostname: &str,
    service_port: u16,
    ty_property: Option<&str>,
    fullname: &str,
    ty_domain: &str,
    has_9100: bool,
) -> (r: Vec<DiscoveredPrinter>)
    ensures
        ({
            let host = trim_end_char(hostname@, '.');
            let name = match ty_property {
                Some(t) => t@,
                None => instance_name(fullname@),
            };
            let ports = mdns_ports(service_port, has_9100);
            if host.len() == 0 {
                r@.len() == 0
            } else {
                &&& r@.len() == ports.len()
                &&& forall|k: int|
                    0 <= k < ports.len() ==> is_tcp_printer(
                        #[trigger] r@[k],
                        host,
                        ports[k],
                        name,
                        ty_domain@,
                    )
            }
        }),
        ({
            let host = trim_end_char(hostname@, '.');
            &&& host.len() > 0 && service_port > 0 ==> exists|k: int|
                0 <= k < r@.len() && (#[trigger] r@[k]).id@ == tcp_id(host, service_port)
            &&& host.len() > 0 && has_9100 ==> exists|k: int|
                0 <= k < r@.len() && (#[trigger] r@[k]).id@ == tcp_id(host, 9100)
            &&& forall|k: int|
                0 <= k < r@.len() ==> exists|port: u16|
                    (port == service_port && port > 0 || port == 9100 && has_9100) && (
                    #[trigger] r@[k]).id@ == tcp_id(host, port)
        }),
{
    let host = mdns_host(hostname);
    let mut printers: Vec<DiscoveredPrinter> = Vec::new();
    if host.as_str().unicode_len() == 0 {
        return printers;
    }
    let name = match ty_property {
        Some(t) => string_of(t),
        None => service_instance_name(fullname),
    };
    let ghost ports = mdns_ports(service_port, has_9100);
    if service_port > 0 {
        printers.push(tcp_printer(host.as_str(), service_port, name.as_str(), ty_domain));
    }
    if service_port != 9100 && has_9100 {
        printers.push(tcp_printer(host.as_str(), 9100, name.as_str(), ty_domain));
    }
    assert forall|k: int| 0 <= k < ports.len() implies is_tcp_printer(
        #[trigger] printers@[k],
        host@,
        ports[k],
        name@,
        ty_domain@,
    ) by {}
    proof {
        law_advertised_port_is_listed(service_port, has_9100);
        if host@.len() > 0 && service_port > 0 {
            let k = choose|k: int| 0 <= k < ports.len() && ports[k] == service_port;
            assert(printers@[k].id@ == tcp_id(host@, service_port));
        }
        if host@.len() > 0 && has_9100 {
            let k = choose|k: int| 0 <= k < ports.len() && ports[k] == 9100;
            assert(printers@[k].id@ == tcp_id(host@, 9100));
        }
        assert forall|k: int| 0 <= k < printers@.len() implies exists|port: u16|
            (port == service_port && port > 0 || port == 9100 && has_9100) && (
            #[trigger] printers@[k]).id@ == tcp_id(host@, port) by {
            assert(printers@[k].id@ == tcp_id(host@, ports[k]));
        }
    }
    printers
}

/// The name a USB printer is listed under: manufacturer and product when the device
/// reports them, with `USB vvvv:pppp` standing in for a missing product name.
pub open spec fn usb_display_name(
    vendor_id: u16,
    product_id: u16,
    manufacturer: Option<Seq<char>>,
    product: Option<Seq<char>>,
) -> Seq<char> {
    let fallback = "USB "@ + hex4(vendor_id) + ":"@ + hex4(product_id);
    match (manufacturer, product) {
        (Some(m), Some(p)) => m + " "@ + p,
        (Some(m), None) => m + " "@ + fallback,
        (None, Some(p)) => p,
        (None, None) => fallback,
    }
}

/// The view of an optional string.
pub open spec fn opt_view(s: Option<String>) -> Option<Seq<char>> {
    match s {
        Some(t) => Some(t@),
        None => None,
    }
}

/// The listing of the USB device `vendor_id:product_id` at `bus_number`/`device_address`.
pub fn usb_discovered_printer(
    vendor_id: u16,
    product_id: u16,
    bus_number: u8,
    device_address: u8,
    manufacturer: Option<String>,
    product: Option<String>,
) -> (p: DiscoveredPrinter)
    ensures
        p.id@ == usb_listing_id(vendor_id, product_id, bus_number, device_address),
        p.display_name@ == usb_display_name(
            vendor_id,
            product_id,
            opt_view(manufacturer),
            opt_view(product),
        ),
        p.transport@ == "usb"@,
        p.address@ == "bus "@ + decimal(bus_number as nat) + " device "@ + decimal(
            device_address as nat,
        ),
        p.source matches Some(s) && s@ == "usb-enumeration"@,
{
    let mut fallback = string_of("USB ");
    push_hex4(&mut fallback, vendor_id);
    push_str(&mut fallback, ":");
    push_hex4(&mut fallback, product_id);
    let display_name = match (manufacturer, product) {
        (Some(m), Some(p)) => {
            let mut d = m;
            push_str(&mut d, " ");
            push_str(&mut d, p.as_str());
            d
        },
        (Some(m), None) => {
            let mut d = m;
            push_str(&mut d, " ");
            push_str(&mut d, fallback.as_str());
            d
        },
        (None, Some(p)) => p,
        (None, None) => fallback,
    };
    let mut id = string_of("usb://");
    push_hex4(&mut id, vendor_id);
    push_str(&mut id, ":");
    push_hex4(&mut id, product_id);
    push_str(&mut id, ":");
    push_decimal(&mut id, bus_number as u128);
    push_str(&mut id, ":");
    push_decimal(&mut id, device_address as u128);
    assert(id@ =~= usb_listing_id(vendor_id, product_id, bus_number, device_address));
    let mut address = string_of("bus ");
    push_decimal(&mut address, bus_number as u128);
    push_str(&mut address, " device ");
    push_decimal(&mut address, device_address as u128);
    DiscoveredPrinter {
        id,
        display_name,
        transport: string_of("usb"),
        address,
        source: Some(string_of("usb-enumeration")),
    }
}

/// Vendor id of Seiko Epson, whose devices are taken for receipt printers.
pub const EPSON_VENDOR_ID: u16 = 0x04B8;

/// USB class code of printers.
pub const PRINTER_CLASS: u8 = 0x07;

/// Whether a USB device looks like a receipt printer: an Epson device, a device of the
/// printer class, or one with an interface of the printer class. `interface_classes`
/// lists the class codes of the interfaces of its configuration, when that can be read.
pub fn is_likely_receipt_printer(
    vendor_id: u16,
    class_code: u8,
    interface_classes: Option<&Vec<u8>>,
) -> (r: bool)
    ensures
        r == (vendor_id == EPSON_VENDOR_ID || class_code == PRINTER_CLASS || (
        interface_classes is Some && exists|k: int|
            0 <= k < interface_classes.unwrap()@.len() && #[trigger] interface_classes.unwrap()@[k]
                == PRINTER_CLASS)),
{
    if vendor_id == EPSON_VENDOR_ID {
        return true;
    }
    if class_code == PRINTER_CLASS {
        return true;
    }
    let classes = match interface_classes {
        Some(cs) => cs,
        None => {
            return false;
        },
    };
    let mut i: usize = 0;
    while i < classes.len()
        invariant
            interface_classes == Some(classes),
            i <= classes@.len(),
            forall|k: int| 0 <= k < i ==> classes@[k] != PRINTER_CLASS,
        decreases classes@.len() - i,
    {
        if classes[i] == PRINTER_CLASS {
            assert(interface_classes.unwrap()@[i as int] == PRINTER_CLASS);
            return true;
        }
        i = i + 1;
    }
    false
}

/// Whether a USB device is the one `target` names: same vendor and product id, and the
/// same bus and address where the target gives them.
pub fn usb_device_matches(
    target: &UsbTarget,
    vendor_id: u16,
    product_id: u16,
    bus_number: u8,
    device_address: u8,
) -> (r: bool)
    ensures
        r == (vendor_id == target.vendor_id && product_id == target.product_id && (
        target.bus_number matches Some(b) ==> b == bus_number) && (
        target.device_address matches Some(a) ==> a == device_address)),
{
    if vendor_id != target.vendor_id || product_id != target.product_id {
        return false;
    }
    if let Some(b) = target.bus_number {
        if b != bus_number {
            return false;
        }
    }
    if let Some(a) = target.device_address {
        if a != device_address {
            return false;
        }
    }
    true
}

/// An endpoint of a USB interface, as read from the device's configuration.
#[derive(Copy, Clone, Debug)]
pub struct EndpointInfo {
    pub interface_number: u8,
    pub address: u8,
    pub is_bulk: bool,
    pub is_out: bool,
}

/// The first bulk endpoint that goes out to the device, as `(interface, endpoint address)`.
pub fn find_bulk_out_endpoint(endpoints: &Vec<EndpointInfo>) -> (r: Option<(u8, u8)>)
    ensures
        match r {
            Some((iface, addr)) => exists|k: int|
                0 <= k < endpoints@.len() && #[trigger] endpoints@[k].is_bulk
                    && endpoints@[k].is_out && endpoints@[k].interface_number == iface
                    && endpoints@[k].address == addr && forall|q: int|
                    0 <= q < k ==> !(#[trigger] endpoints@[q].is_bulk && endpoints@[q].is_out),
            None => forall|q: int|
                0 <= q < endpoints@.len() ==> !(#[trigger] endpoints@[q].is_bulk
                    && endpoints@[q].is_out),
        },
{
    let mut i: usize = 0;
    while i < endpoints.len()
        invariant
            i <= endpoints@.len(),
            forall|q: int| 0 <= q < i ==> !(#[trigger] endpoints@[q].is_bulk && endpoints@[q].is_out),
        decreases endpoints@.len() - i,
    {
        let e = endpoints[i];
        if e.is_bulk && e.is_out {
            return Some((e.interface_number, e.address));
        }
        i = i + 1;
    }
    None
}

/// The error for a USB printer that is not attached.
pub fn usb_not_found(target: &UsbTarget) -> (e: SlipbridgeError)
    ensures
        is_not_found(
            e,
            "USB printer "@ + hex4(target.vendor_id) + ":"@ + hex4(target.product_id)
                + " not found"@,
        ),
{
    let mut m = string_of("USB printer ");
    push_hex4(&mut m, target.vendor_id);
    push_str(&mut m, ":");
    push_hex4(&mut m, target.product_id);
    push_str(&mut m, " not found");
    SlipbridgeError::not_found(m)
}

} // verus!
