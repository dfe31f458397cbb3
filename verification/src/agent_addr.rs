//! The address of the micro-ROS Agent, written `a.b.c.d:port`.
use vstd::prelude::*;

use crate::decimal;
use crate::text;

verus! {

/// Why a text is not an address.
#[derive(Clone, Copy, Debug, PartialEq, Eq, Structural)]
pub enum AddrError {
    /// There is no colon.
    MissingColon,
    /// What stands behind the last colon is not a port number from 1 to 65535.
    InvalidPort,
    /// One of the first four fields of the host, and not its last field, is not a
    /// numeral for a `u8`.
    InvalidOctet,
    /// The last field of the host is not a numeral for a `u8`.
    InvalidLastOctet,
    /// The host has more than four fields.
    TooManyOctets,
    /// The host has fewer than four fields.
    TooFewOctets,
}

impl AddrError {
    /// The words in which the error is reported.
    pub fn message(self) -> (words: &'static str)
        ensures
            words@ == match self {
                AddrError::MissingColon => {
                    "MICRO_ROS_AGENT_ADDR: missing ':'. Expected \"a.b.c.d:port\""@
                },
                AddrError::InvalidPort => {
                    "MICRO_ROS_AGENT_ADDR: invalid port number (1–65535)"@
                },
                AddrError::InvalidOctet => "MICRO_ROS_AGENT_ADDR: invalid IP octet (0–255)"@,
                AddrError::InvalidLastOctet => "MICRO_ROS_AGENT_ADDR: invalid IP octet"@,
                AddrError::TooManyOctets => "MICRO_ROS_AGENT_ADDR: too many IP octets"@,
                AddrError::TooFewOctets => "MICRO_ROS_AGENT_ADDR: IP must have 4 octets"@,
            },
    {
        match self {
            AddrError::MissingColon => {
                "MICRO_ROS_AGENT_ADDR: missing ':'. Expected \"a.b.c.d:port\""
            },
            AddrError::InvalidPort => "MICRO_ROS_AGENT_ADDR: invalid port number (1–65535)",
            AddrError::InvalidOctet => "MICRO_ROS_AGENT_ADDR: invalid IP octet (0–255)",
            AddrError::InvalidLastOctet => "MICRO_ROS_AGENT_ADDR: invalid IP octet",
            AddrError::TooManyOctets => "MICRO_ROS_AGENT_ADDR: too many IP octets",
            AddrError::TooFewOctets => "MICRO_ROS_AGENT_ADDR: IP must have 4 octets",
        }
    }
}

/// What stands before the last colon.
pub open spec fn host_part(s: Seq<char>) -> Seq<char>
    recommends
        s.contains(':'),
{
    s.take(text::last_position(s, ':'))
}

/// What stands behind the last colon.
pub open spec fn port_part(s: Seq<char>) -> Seq<char>
    recommends
        s.contains(':'),
{
    s.skip(text::last_position(s, ':') + 1)
}

/// The fields of the host, which dots separate.
pub open spec fn host_fields(s: Seq<char>) -> Seq<Seq<char>>
    recommends
        s.contains(':'),
{
    text::split_fields(host_part(s), '.')
}

/// A numeral for a port number from 1 to 65535. Zero is no port to connect to.
pub open spec fn is_port(s: Seq<char>) -> bool {
    &&& decimal::is_u16_numeral(s)
    &&& decimal::decimal_value(s) >= 1
}

/// A text that is an address: a host of four numerals for a `u8` between dots, a
/// colon, and a port number.
pub open spec fn is_addr(s: Seq<char>) -> bool {
    &&& s.contains(':')
    &&& is_port(port_part(s))
    &&& host_fields(s).len() == 4
    &&& forall|i: int| 0 <= i < 4 ==> decimal::is_u8_numeral(#[trigger] host_fields(s)[i])
}

/// The four octets of an address.
pub open spec fn addr_octets(s: Seq<char>) -> Seq<u8>
    recommends
        is_addr(s),
{
    host_fields(s).map_values(|field: Seq<char>| decimal::decimal_value(field) as u8)
}

/// The port of an address.
pub open spec fn addr_port(s: Seq<char>) -> u16
    recommends
        is_addr(s),
{
    decimal::decimal_value(port_part(s)) as u16
}

/// The first thing that is wrong with a text that is not an address, read from the
/// port and then along the host: the fields before the last one, as far as there is
/// room for them, the last field, and the number of fields.
pub open spec fn addr_error(s: Seq<char>) -> AddrError
    recommends
        !is_addr(s),
{
    let fields = host_fields(s);
    let n = fields.len();
    if !s.contains(':') {
        AddrError::MissingColon
    } else if !is_port(port_part(s)) {
        AddrError::InvalidPort
    } else if exists|i: int|
        0 <= i < n - 1 && i < 4 && !decimal::is_u8_numeral(#[trigger] fields[i]) {
        AddrError::InvalidOctet
    } else if n > 5 {
        AddrError::TooManyOctets
    } else if !decimal::is_u8_numeral(fields.last()) {
        AddrError::InvalidLastOctet
    } else if n > 4 {
        AddrError::TooManyOctets
    } else {
        AddrError::TooFewOctets
    }
}

/// Reads an address, or says what is wrong with it.
pub fn try_parse_addr(addr: &str) -> (parsed: Result<([u8; 4], u16), AddrError>)
    ensures
        parsed is Ok <==> is_addr(addr@),
        parsed matches Ok((octets, port)) ==> octets@ == addr_octets(addr@) && port == addr_port(
            addr@,
        ),
        parsed matches Ok((octets, port)) ==> host_fields(addr@).len() == 4 && port
            == decimal::decimal_value(port_part(addr@)) && forall|i: int|
            0 <= i < 4 ==> octets@[i] == decimal::decimal_value(#[trigger] host_fields(addr@)[i]),
        parsed matches Err(error) ==> error == addr_error(addr@),
{
    let (host, port_text) = match text::split_last(addr, ':') {
        Some(parts) => parts,
        None => {
            return Err(AddrError::MissingColon);
        },
    };
    proof {
        text::lemma_last_position(host@, ':', port_text@);
        assert(host_part(addr@) =~= host@);
        assert(port_part(addr@) =~= port_text@);
    }
    let port = match decimal::parse_u16(port_text) {
        Some(port) => port,
        None => {
            return Err(AddrError::InvalidPort);
        },
    };
    if port == 0 {
        return Err(AddrError::InvalidPort);
    }
    let ghost fields = text::split_fields(host@, '.');
    let mut octets: [u8; 4] = [0, 0, 0, 0];
    let mut count: usize = 0;
    let mut rest = host;
    assert(fields.skip(0) =~= fields);
    loop
        invariant
            fields == host_fields(addr@),
            addr@.contains(':'),
            is_port(port_part(addr@)),
            count <= 4,
            count < fields.len(),
            fields.skip(count as int) == text::split_fields(rest@, '.'),
            forall|i: int| 0 <= i < count ==> decimal::is_u8_numeral(#[trigger] fields[i]),
            forall|i: int|
                0 <= i < count ==> octets@[i] == decimal::decimal_value(#[trigger] fields[i]),
        ensures
            fields.skip(count as int) == seq![rest@],
        decreases rest@.len(),
    {
        match text::split_first(rest, '.') {
            None => {
                proof {
                    text::lemma_split_fields_last(rest@, '.');
                }
                break;
            },
            Some((field, tail)) => {
                proof {
                    text::lemma_split_fields_first(field@, '.', tail@);
                    text::lemma_split_fields_separate(tail@, '.');
                    let remaining = fields.skip(count as int);
                    assert(fields[count as int] == remaining[0]);
                    assert(fields.skip(count + 1) =~= remaining.skip(1));
                    assert(remaining.skip(1) =~= text::split_fields(tail@, '.'));
                }
                if count >= 4 {
                    return Err(AddrError::TooManyOctets);
                }
                match decimal::parse_u8(field) {
                    Some(octet) => {
                        octets[count] = octet;
                    },
                    None => {
                        return Err(AddrError::InvalidOctet);
                    },
                }
                count = count + 1;
                rest = tail;
            },
        }
    }
    proof {
        assert(fields.skip(count as int)[0] == rest@);
        assert(fields.last() == rest@);
        assert(fields.len() == count + 1);
    }
    let octet = match decimal::parse_u8(rest) {
        Some(octet) => octet,
        None => {
            return Err(AddrError::InvalidLastOctet);
        },
    };
    if count >= 4 {
        return Err(AddrError::TooManyOctets);
    }
    octets[count] = octet;
    count = count + 1;
    if count != 4 {
        return Err(AddrError::TooFewOctets);
    }
    assert(octets@ =~= addr_octets(addr@));
    Ok((octets, port))
}

/// Reads an address.
pub fn parse_addr(addr: &str) -> (parsed: ([u8; 4], u16))
    requires
        is_addr(addr@),
    ensures
        parsed.0@ == addr_octets(addr@),
        parsed.1 == addr_port(addr@),
        host_fields(addr@).len() == 4,
        forall|i: int|
            0 <= i < 4 ==> parsed.0@[i] == decimal::decimal_value(
                #[trigger] host_fields(addr@)[i],
            ),
        parsed.1 == decimal::decimal_value(port_part(addr@)),
{
    try_parse_addr(addr).unwrap()
}

/// The text with these fields as the host and with this port.
pub open spec fn dotted(fields: Seq<Seq<char>>, port: Seq<char>) -> Seq<char> {
    text::join_fields(fields, '.') + seq![':'] + port
}

/// The plain text of an address: every number without superfluous leading zeros.
pub open spec fn addr_text(octets: Seq<u8>, port: u16) -> Seq<char> {
    dotted(
        octets.map_values(|octet: u8| decimal::decimal_text(octet as nat)),
        decimal::decimal_text(port as nat),
    )
}

/// A text of digits holds no other character.
proof fn lemma_digits_only(s: Seq<char>, c: char)
    requires
        decimal::all_digits(s),
        !decimal::is_digit(c),
    ensures
        !s.contains(c),
{
    if s.contains(c) {
        let i = choose|i: int| 0 <= i < s.len() && s[i] == c;
        assert(decimal::is_digit(s[i]));
    }
}

/// Four numerals between dots, a colon and a port number make an address, and each is
/// found again in its place.
pub proof fn law_dotted_is_addr(fields: Seq<Seq<char>>, port: Seq<char>)
    requires
        fields.len() == 4,
        forall|i: int| 0 <= i < 4 ==> decimal::is_u8_numeral(#[trigger] fields[i]),
        is_port(port),
    ensures
        is_addr(dotted(fields, port)),
        host_fields(dotted(fields, port)) == fields,
        port_part(dotted(fields, port)) == port,
        addr_octets(dotted(fields, port)).len() == 4,
        forall|i: int|
            0 <= i < 4 ==> #[trigger] addr_octets(dotted(fields, port))[i]
                == decimal::decimal_value(fields[i]),
        addr_port(dotted(fields, port)) == decimal::decimal_value(port),
{
    let s = dotted(fields, port);
    let host = text::join_fields(fields, '.');
    assert forall|i: int| 0 <= i < fields.len() implies !(#[trigger] fields[i]).contains('.') by {
        lemma_digits_only(fields[i], '.');
    }
    text::law_join_then_split(fields, '.');
    lemma_digits_only(port, ':');
    text::lemma_last_position(host, ':', port);
    assert(s[host.len() as int] == ':');
    assert(host_part(s) =~= host);
    assert(port_part(s) =~= port);
}

/// The last colon parts the host from the port.
pub proof fn law_host_and_port(host: Seq<char>, port: Seq<char>)
    requires
        !port.contains(':'),
    ensures
        host_part(host + seq![':'] + port) == host,
        port_part(host + seq![':'] + port) == port,
{
    let s = host + seq![':'] + port;
    text::lemma_last_position(host, ':', port);
    assert(host_part(s) =~= host);
    assert(port_part(s) =~= port);
}

/// Four fields and a port, spelled out.
pub proof fn law_dotted_spelled_out(
    a: Seq<char>,
    b: Seq<char>,
    c: Seq<char>,
    d: Seq<char>,
    port: Seq<char>,
)
    ensures
        dotted(seq![a, b, c, d], port) == a + seq!['.'] + b + seq!['.'] + c + seq!['.'] + d + seq![
            ':',
        ] + port,
{
    text::law_joined_fields(d, seq![], '.');
    text::law_joined_fields(c, seq![d], '.');
    text::law_joined_fields(b, seq![c, d], '.');
    text::law_joined_fields(a, seq![b, c, d], '.');
    assert(seq![c] + seq![d] =~= seq![c, d]);
    assert(seq![b] + seq![c, d] =~= seq![b, c, d]);
    assert(seq![a] + seq![b, c, d] =~= seq![a, b, c, d]);
    assert(dotted(seq![a, b, c, d], port) =~= a + seq!['.'] + b + seq!['.'] + c + seq!['.'] + d
        + seq![':'] + port);
}

/// Four numerals with a dot between each two, a colon and a numeral from 1 make an
/// address, and it is read number by number: each octet is the number that stands in
/// its place, with or without leading zeros, and so is the port.
pub proof fn law_addr_is_read_number_by_number(
    a: Seq<char>,
    b: Seq<char>,
    c: Seq<char>,
    d: Seq<char>,
    port: Seq<char>,
)
    requires
        decimal::is_u8_numeral(a),
        decimal::is_u8_numeral(b),
        decimal::is_u8_numeral(c),
        decimal::is_u8_numeral(d),
        decimal::is_u16_numeral(port),
        decimal::decimal_value(port) >= 1,
    ensures
        ({
            let s = a + seq!['.'] + b + seq!['.'] + c + seq!['.'] + d + seq![':'] + port;
            &&& is_addr(s)
            &&& host_fields(s) == seq![a, b, c, d]
            &&& port_part(s) == port
            &&& addr_octets(s).len() == 4
            &&& addr_octets(s)[0] == decimal::decimal_value(a)
            &&& addr_octets(s)[1] == decimal::decimal_value(b)
            &&& addr_octets(s)[2] == decimal::decimal_value(c)
            &&& addr_octets(s)[3] == decimal::decimal_value(d)
            &&& addr_port(s) == decimal::decimal_value(port)
        }),
{
    let fields = seq![a, b, c, d];
    assert forall|i: int| 0 <= i < 4 implies decimal::is_u8_numeral(#[trigger] fields[i]) by {
        assert(i == 0 || i == 1 || i == 2 || i == 3);
    }
    law_dotted_spelled_out(a, b, c, d, port);
    law_dotted_is_addr(fields, port);
    let octets = addr_octets(dotted(fields, port));
    assert(octets[0] == decimal::decimal_value(fields[0]));
    assert(octets[1] == decimal::decimal_value(fields[1]));
    assert(octets[2] == decimal::decimal_value(fields[2]));
    assert(octets[3] == decimal::decimal_value(fields[3]));
}

/// Nothing else is an address: an address is four numerals with a dot between each
/// two, a colon and a numeral from 1. They are returned.
pub proof fn law_addr_is_made_of_numbers(s: Seq<char>) -> (parts: (
    Seq<char>,
    Seq<char>,
    Seq<char>,
    Seq<char>,
    Seq<char>,
))
    requires
        is_addr(s),
    ensures
        s == parts.0 + seq!['.'] + parts.1 + seq!['.'] + parts.2 + seq!['.'] + parts.3 + seq![':']
            + parts.4,
        decimal::is_u8_numeral(parts.0),
        decimal::is_u8_numeral(parts.1),
        decimal::is_u8_numeral(parts.2),
        decimal::is_u8_numeral(parts.3),
        decimal::is_u16_numeral(parts.4),
        decimal::decimal_value(parts.4) >= 1,
{
    let f = host_fields(s);
    law_addr_is_dotted(s);
    assert(f =~= seq![f[0], f[1], f[2], f[3]]);
    law_dotted_spelled_out(f[0], f[1], f[2], f[3], port_part(s));
    (f[0], f[1], f[2], f[3], port_part(s))
}

/// A leading zero before a number of the host that has room for it changes nothing.
pub proof fn law_padded_octet(fields: Seq<Seq<char>>, port: Seq<char>, k: int)
    requires
        fields.len() == 4,
        forall|i: int| 0 <= i < 4 ==> decimal::is_u8_numeral(#[trigger] fields[i]),
        is_port(port),
        0 <= k < 4,
        fields[k].len() < 3,
    ensures
        is_addr(dotted(fields.update(k, seq!['0'] + fields[k]), port)),
        addr_octets(dotted(fields.update(k, seq!['0'] + fields[k]), port)) == addr_octets(
            dotted(fields, port),
        ),
        addr_port(dotted(fields.update(k, seq!['0'] + fields[k]), port)) == addr_port(
            dotted(fields, port),
        ),
{
    let padded = fields.update(k, seq!['0'] + fields[k]);
    decimal::law_padded_numeral(fields[k], 2, 255);
    assert forall|i: int| 0 <= i < 4 implies decimal::is_u8_numeral(#[trigger] padded[i])
        && decimal::decimal_value(padded[i]) == decimal::decimal_value(fields[i]) by {
        assert(decimal::is_u8_numeral(fields[i]));
    }
    law_dotted_is_addr(fields, port);
    law_dotted_is_addr(padded, port);
    let read = addr_octets(dotted(fields, port));
    let read_padded = addr_octets(dotted(padded, port));
    assert forall|i: int| 0 <= i < 4 implies read_padded[i] == read[i] by {
        assert(read_padded[i] == decimal::decimal_value(padded[i]));
        assert(read[i] == decimal::decimal_value(fields[i]));
    }
    assert(read_padded =~= read);
}

/// A text without a colon is refused for that.
pub proof fn law_missing_colon(s: Seq<char>)
    requires
        !s.contains(':'),
    ensures
        !is_addr(s),
        addr_error(s) == AddrError::MissingColon,
{
}

/// A port that is no numeral from 1 to 65535 is refused, whatever the host.
pub proof fn law_invalid_port(host: Seq<char>, port: Seq<char>)
    requires
        !port.contains(':'),
        !(decimal::is_u16_numeral(port) && decimal::decimal_value(port) >= 1),
    ensures
        !is_addr(host + seq![':'] + port),
        addr_error(host + seq![':'] + port) == AddrError::InvalidPort,
{
    law_host_and_port(host, port);
    assert((host + seq![':'] + port)[host.len() as int] == ':');
}

/// What is said of a host of fields between dots, before a port that is in order.
pub proof fn law_refused_host(fields: Seq<Seq<char>>, port: Seq<char>)
    requires
        fields.len() >= 1,
        forall|i: int| 0 <= i < fields.len() ==> !(#[trigger] fields[i]).contains('.'),
        decimal::is_u16_numeral(port),
        decimal::decimal_value(port) >= 1,
    ensures
        ({
            let s = text::join_fields(fields, '.') + seq![':'] + port;
            let n = fields.len();
            let early = exists|i: int|
                0 <= i < n - 1 && i < 4 && !decimal::is_u8_numeral(#[trigger] fields[i]);
            let late = !decimal::is_u8_numeral(fields[n - 1]);
            &&& early ==> !is_addr(s) && addr_error(s) == AddrError::InvalidOctet
            &&& !early && n >= 6 ==> !is_addr(s) && addr_error(s) == AddrError::TooManyOctets
            &&& !early && n <= 5 && late ==> !is_addr(s) && addr_error(s)
                == AddrError::InvalidLastOctet
            &&& !early && n == 5 && !late ==> !is_addr(s) && addr_error(s)
                == AddrError::TooManyOctets
            &&& !early && n <= 3 && !late ==> !is_addr(s) && addr_error(s)
                == AddrError::TooFewOctets
            &&& !early && n == 4 && !late ==> is_addr(s)
        }),
{
    let host = text::join_fields(fields, '.');
    let s = host + seq![':'] + port;
    lemma_digits_only(port, ':');
    law_host_and_port(host, port);
    text::law_join_then_split(fields, '.');
    assert(s[host.len() as int] == ':');
    assert(host_fields(s) == fields);
}

/// Every address is its four host fields between dots, a colon and its port.
pub proof fn law_addr_is_dotted(s: Seq<char>)
    requires
        is_addr(s),
    ensures
        s == dotted(host_fields(s), port_part(s)),
{
    text::lemma_last_position_found(s, ':');
    text::law_split_then_join(host_part(s), '.');
    assert(s =~= host_part(s) + seq![':'] + port_part(s));
}

/// Every IPv4 address with a port other than zero can be written as an address and is
/// read back from it.
pub proof fn law_every_agent_is_read_back(octets: Seq<u8>, port: u16)
    requires
        octets.len() == 4,
        port >= 1,
    ensures
        is_addr(addr_text(octets, port)),
        addr_octets(addr_text(octets, port)) == octets,
        addr_port(addr_text(octets, port)) == port,
{
    let fields = octets.map_values(|octet: u8| decimal::decimal_text(octet as nat));
    assert forall|i: int| 0 <= i < 4 implies decimal::is_u8_numeral(#[trigger] fields[i])
        && decimal::decimal_value(fields[i]) == octets[i] by {
        decimal::law_every_u8_is_read(octets[i]);
    }
    decimal::law_every_u16_is_read(port);
    law_dotted_is_addr(fields, decimal::decimal_text(port as nat));
    assert(addr_octets(addr_text(octets, port)) =~= octets);
}

/// An address whose numbers have no superfluous leading zeros is the plain text of
/// what is read from it.
pub proof fn law_plain_addr_is_written_back(s: Seq<char>)
    requires
        is_addr(s),
        decimal::is_shortest(port_part(s)),
        forall|i: int| 0 <= i < 4 ==> decimal::is_shortest(#[trigger] host_fields(s)[i]),
    ensures
        addr_text(addr_octets(s), addr_port(s)) == s,
{
    let fields = host_fields(s);
    let written = addr_octets(s).map_values(|octet: u8| decimal::decimal_text(octet as nat));
    assert forall|i: int| 0 <= i < 4 implies written[i] == #[trigger] fields[i] by {
        assert(decimal::is_u8_numeral(fields[i]));
        decimal::law_shortest_numeral(fields[i]);
    }
    assert(written =~= fields);
    decimal::law_shortest_numeral(port_part(s));
    law_addr_is_dotted(s);
}

/// An address holds digits, dots and one colon, which stands behind the host, and is
/// between nine and twenty-one characters long.
pub proof fn law_addr_characters(s: Seq<char>)
    requires
        is_addr(s),
    ensures
        9 <= s.len() <= 21,
        forall|i: int|
            0 <= i < s.len() ==> decimal::is_digit(#[trigger] s[i]) || s[i] == '.' || s[i] == ':',
        forall|i: int|
            0 <= i < s.len() ==> (#[trigger] s[i] == ':' <==> i == host_part(s).len()),
{
    law_addr_is_dotted(s);
    let f = host_fields(s);
    let port = port_part(s);
    assert(decimal::is_u8_numeral(f[0]) && decimal::is_u8_numeral(f[1]));
    assert(decimal::is_u8_numeral(f[2]) && decimal::is_u8_numeral(f[3]));
    let f1 = f.drop_first();
    let f2 = f1.drop_first();
    let f3 = f2.drop_first();
    let host = f[0] + seq!['.'] + (f[1] + seq!['.'] + (f[2] + seq!['.'] + f[3]));
    assert(text::join_fields(f, '.') == host) by {
        reveal_with_fuel(text::join_fields, 4);
        assert(f1[0] == f[1] && f2[0] == f[2] && f3[0] == f[3]);
    }
    text::lemma_last_position_found(s, ':');
    assert(host_part(s) =~= host) by {
        assert(decimal::all_digits(port));
        lemma_digits_only(port, ':');
        text::lemma_last_position(host, ':', port);
    }
    assert forall|i: int| 0 <= i < s.len() implies decimal::is_digit(#[trigger] s[i]) || s[i] == '.'
        || (s[i] == ':' && i == host.len()) by {
        let n0 = f[0].len() as int;
        let n1 = f[1].len() as int;
        let n2 = f[2].len() as int;
        let n3 = f[3].len() as int;
        if i < n0 {
            assert(decimal::is_digit(f[0][i]));
        } else if n0 < i < n0 + 1 + n1 {
            assert(decimal::is_digit(f[1][i - n0 - 1]));
        } else if n0 + 1 + n1 < i < n0 + n1 + n2 + 2 {
            assert(decimal::is_digit(f[2][i - n0 - n1 - 2]));
        } else if n0 + n1 + n2 + 2 < i < host.len() {
            assert(decimal::is_digit(f[3][i - n0 - n1 - n2 - 3]));
        } else if i > host.len() {
            assert(decimal::is_digit(port[i - host.len() - 1]));
        }
    }
}

} // verus!
