//! Listening sockets, as `ss -lntup` prints them or as `/proc/net/tcp`
//! lists them.

use vstd::prelude::*;
use crate::models::{ListeningPort, PortView};
use crate::text::{chars_of, last_index, lines, lines_of, rfind_char, trim, trim_str, views, words, words_of, decimal, find_char, find_sub, find_sub_from, first_index, parse_unsigned, parse_unsigned_str, push_decimal};

verus! {

/// The longest prefix of `s` made of ASCII digits.
pub open spec fn digit_prefix(s: Seq<char>) -> Seq<char>
    decreases s.len(),
{
    if s.len() > 0 && '0' <= s[0] && s[0] <= '9' {
        seq![s[0]] + digit_prefix(s.drop_first())
    } else {
        Seq::empty()
    }
}

/// The process name and pid that an `ss` process field such as
/// `users:(("nginx",pid=1234,fd=6))` holds: the name is the text between the
/// first `(("` and the next `"`, the pid the digits after the first `pid=`.
pub open spec fn process_field(f: Seq<char>) -> (Seq<char>, Option<u32>) {
    let name = match find_sub(f, "((\""@) {
        Some(st) => {
            let rest = f.skip(st + "((\""@.len());
            match first_index(rest, '"') {
                Some(e) => rest.take(e),
                None => Seq::empty(),
            }
        },
        None => Seq::empty(),
    };
    let pid = match find_sub(f, "pid="@) {
        Some(p) => match parse_unsigned(digit_prefix(f.skip(p + "pid="@.len())), 10, u32::MAX as nat) {
            Some(n) => Some(n as u32),
            None => None,
        },
        None => None,
    };
    (name, pid)
}

/// The number of leading ASCII digits of `v[from..]`.
fn digit_prefix_len(v: &Vec<char>, from: usize) -> (n: usize)
    requires
        from <= v.len(),
    ensures
        from + n <= v.len(),
        v@.subrange(from as int, from + n) == digit_prefix(v@.skip(from as int)),
{
    let mut i: usize = from;
    assert(v@.skip(from as int) =~= v@.subrange(from as int, v.len() as int));
    assert(v@.subrange(from as int, from as int) =~= Seq::<char>::empty());
    while i < v.len() && '0' <= v[i] && v[i] <= '9'
        invariant
            from <= i <= v.len(),
            digit_prefix(v@.skip(from as int)) == v@.subrange(from as int, i as int) + digit_prefix(
                v@.skip(i as int),
            ),
        decreases v.len() - i,
    {
        assert(v@.skip(i as int).drop_first() =~= v@.skip(i + 1));
        assert(v@.subrange(from as int, i as int) + seq![v@[i as int]] =~= v@.subrange(
            from as int,
            i + 1,
        ));
        i = i + 1;
    }
    assert(digit_prefix(v@.skip(i as int)) =~= Seq::<char>::empty());
    i - from
}

/// Reads the process name and pid from an `ss` process field.
pub fn parse_process_field(field: &str) -> (r: (String, Option<u32>))
    ensures
        (r.0@, r.1) == process_field(field@),
{
    let v = chars_of(field);
    let open = chars_of("((\"");
    let mut name = String::new();
    assert(v@.skip(0) =~= v@);
    match find_sub_from(&v, &open, 0) {
        Some(start) => {
            let from = start + open.len();
            let rest_str = field.substring_char(from, v.len());
            let rest = chars_of(rest_str);
            assert(rest@ =~= v@.skip(from as int));
            match find_char(&rest, '"') {
                Some(end) => {
                    name = String::from_str(rest_str.substring_char(0, end));
                    assert(rest@.subrange(0, end as int) =~= rest@.take(end as int));
                },
                None => {},
            }
        },
        None => {},
    }
    let key = chars_of("pid=");
    let pid = match find_sub_from(&v, &key, 0) {
        Some(p) => {
            let from = p + key.len();
            let n = digit_prefix_len(&v, from);
            let digits = field.substring_char(from, from + n);
            parse_unsigned_str(digits, 10, u32::MAX)
        },
        None => None,
    };
    (name, pid)
}

/// The dotted form of the little-endian IPv4 address `x`.
pub open spec fn dotted_le(x: nat) -> Seq<char> {
    decimal(x % 256) + "."@ + decimal((x / 256) % 256) + "."@ + decimal((x / 65536) % 256) + "."@
        + decimal((x / 16777216) % 256)
}

/// The address that an eight-digit hexadecimal field of `/proc/net/tcp`
/// denotes, in dotted form; any other text stands for itself.  (A text of
/// eight characters that parses is ASCII, so eight characters and eight bytes
/// agree wherever it matters.)
pub open spec fn hex_ip(hex: Seq<char>) -> Seq<char> {
    if hex.len() != 8 {
        hex
    } else {
        match parse_unsigned(hex, 16, u32::MAX as nat) {
            Some(x) => dotted_le(x),
            None => hex,
        }
    }
}

/// Converts a little-endian hexadecimal IPv4 address to dotted notation.
pub fn parse_hex_ip(hex: &str) -> (r: String)
    ensures
        r@ == hex_ip(hex@),
{
    if chars_of(hex).len() != 8 {
        return String::from_str(hex);
    }
    match parse_unsigned_str(hex, 16, u32::MAX) {
        Some(x) => {
            let x = x as u64;
            let mut r = String::new();
            push_decimal(&mut r, x % 256);
            r.append(".");
            push_decimal(&mut r, (x / 256) % 256);
            r.append(".");
            push_decimal(&mut r, (x / 65536) % 256);
            r.append(".");
            push_decimal(&mut r, (x / 16777216) % 256);
            assert(r@ =~= dotted_le(x as nat));
            r
        },
        None => String::from_str(hex),
    }
}


/// The listening socket that one line of `ss -lntup` describes, if any: the
/// trimmed line splits into at least five words, the fifth is `address:port`
/// split at its last `:` with a non-zero port, and the seventh word, when
/// there is one, is the process field.
pub open spec fn ss_entry(l: Seq<char>) -> Option<PortView> {
    let t = trim(l);
    let parts = words(t);
    if t.len() == 0 || parts.len() < 5 {
        None
    } else {
        let local = parts[4];
        match last_index(local, ':') {
            None => None,
            Some(c) => {
                let port = match parse_unsigned(local.skip(c + 1), 10, 65535) {
                    Some(p) => p,
                    None => 0,
                };
                if port == 0 {
                    None
                } else {
                    let pf = if parts.len() >= 7 {
                        process_field(parts[6])
                    } else {
                        (Seq::<char>::empty(), None)
                    };
                    Some(
                        PortView {
                            protocol: parts[0],
                            local_address: local.take(c),
                            port: port as u16,
                            process_name: pf.0,
                            pid: pf.1,
                        },
                    )
                }
            },
        }
    }
}

/// The sockets that the lines `ls` describe, in order.
pub open spec fn ss_entries(ls: Seq<Seq<char>>) -> Seq<PortView>
    decreases ls.len(),
{
    if ls.len() == 0 {
        Seq::empty()
    } else {
        ss_entries(ls.drop_last()) + match ss_entry(ls.last()) {
            Some(e) => seq![e],
            None => Seq::empty(),
        }
    }
}

/// The sockets that the output of `ss -lntup` lists (its first line is the
/// header).
pub open spec fn ss_listing(output: Seq<char>) -> Seq<PortView> {
    let ls = lines(output);
    if ls.len() == 0 {
        Seq::empty()
    } else {
        ss_entries(ls.skip(1))
    }
}

/// The views of a list of sockets.
pub open spec fn port_views(v: Seq<ListeningPort>) -> Seq<PortView> {
    v.map_values(|p: ListeningPort| p@)
}

/// Every socket read from `ss` output has a non-zero port.
pub proof fn ss_ports_are_nonzero(ls: Seq<Seq<char>>)
    ensures
        forall|k: int| 0 <= k < ss_entries(ls).len() ==> (#[trigger] ss_entries(ls)[k]).port != 0,
    decreases ls.len(),
{
    if ls.len() > 0 {
        ss_ports_are_nonzero(ls.drop_last());
        let p = ss_entries(ls.drop_last());
        assert forall|k: int| 0 <= k < ss_entries(ls).len() implies (#[trigger] ss_entries(ls)[k]).port != 0 by {
            if k < p.len() {
                assert(ss_entries(ls)[k] == p[k]);
            }
        }
    }
}

fn ss_line(line: &str) -> (r: Option<ListeningPort>)
    ensures
        match r {
            Some(p) => ss_entry(line@) == Some(p@),
            None => ss_entry(line@) is None,
        },
{
    let t = trim_str(line);
    if chars_of(t).len() == 0 {
        return None;
    }
    let parts = words_of(t);
    if parts.len() < 5 {
        return None;
    }
    assert(parts@[4]@ == views(parts@)[4]);
    assert(parts@[0]@ == views(parts@)[0]);
    let local = parts[4].as_str();
    let lv = chars_of(local);
    let c = match rfind_char(&lv, ':') {
        Some(c) => c,
        None => return None,
    };
    let addr = String::from_str(local.substring_char(0, c));
    assert(lv@.subrange(0, c as int) =~= lv@.take(c as int));
    let port_text = local.substring_char(c + 1, lv.len());
    assert(lv@.subrange(c + 1, lv.len() as int) =~= lv@.skip(c + 1));
    let port: u32 = match parse_unsigned_str(port_text, 10, 65535) {
        Some(p) => p,
        None => 0,
    };
    if port == 0 {
        return None;
    }
    let (process_name, pid) = if parts.len() >= 7 {
        assert(parts@[6]@ == views(parts@)[6]);
        parse_process_field(parts[6].as_str())
    } else {
        (String::new(), None)
    };
    Some(
        ListeningPort {
            protocol: parts[0].clone(),
            local_address: addr,
            port: port as u16,
            process_name,
            pid,
        },
    )
}

/// Reads the listening sockets from the output of `ss -lntup`.
pub fn parse_ss_output(output: &str) -> (ports: Vec<ListeningPort>)
    ensures
        port_views(ports@) == ss_listing(output@),
{
    let ls = lines_of(output);
    let mut ports: Vec<ListeningPort> = Vec::new();
    if ls.len() == 0 {
        assert(port_views(ports@) =~= Seq::<PortView>::empty());
        return ports;
    }
    let ghost rest = views(ls@).skip(1);
    let mut i: usize = 1;
    assert(rest.take(0) =~= Seq::<Seq<char>>::empty());
    while i < ls.len()
        invariant
            1 <= i <= ls@.len(),
            rest == views(ls@).skip(1),
            port_views(ports@) =~= ss_entries(rest.take(i - 1)),
        decreases ls@.len() - i,
    {
        assert(rest.take(i as int).drop_last() =~= rest.take(i - 1));
        assert(rest.take(i as int).last() == ls@[i as int]@);
        match ss_line(ls[i].as_str()) {
            Some(p) => {
                ports.push(p);
            },
            None => {},
        }
        i = i + 1;
    }
    assert(rest.take(i - 1) =~= rest);
    ports
}

/// The listening TCP socket that one line of `/proc/net/tcp` describes, if
/// any: the line has at least four words, the fourth is the state `0A`
/// (listen), and the second is `address:port` in hexadecimal, split at its
/// first `:`.
pub open spec fn tcp_entry(l: Seq<char>) -> Option<PortView> {
    let parts = words(l);
    if parts.len() < 4 || parts[3] != "0A"@ {
        None
    } else {
        let local = parts[1];
        match first_index(local, ':') {
            None => None,
            Some(c) => match parse_unsigned(local.skip(c + 1), 16, 65535) {
                None => None,
                Some(p) => Some(
                    PortView {
                        protocol: "tcp"@,
                        local_address: hex_ip(local.take(c)),
                        port: p as u16,
                        process_name: Seq::empty(),
                        pid: None,
                    },
                ),
            },
        }
    }
}

/// The sockets that the lines `ls` of `/proc/net/tcp` describe, in order.
pub open spec fn tcp_entries(ls: Seq<Seq<char>>) -> Seq<PortView>
    decreases ls.len(),
{
    if ls.len() == 0 {
        Seq::empty()
    } else {
        tcp_entries(ls.drop_last()) + match tcp_entry(ls.last()) {
            Some(e) => seq![e],
            None => Seq::empty(),
        }
    }
}

/// The listening sockets that `/proc/net/tcp` lists (its first line is the
/// header).
pub open spec fn tcp_listing(content: Seq<char>) -> Seq<PortView> {
    let ls = lines(content);
    if ls.len() == 0 {
        Seq::empty()
    } else {
        tcp_entries(ls.skip(1))
    }
}

fn tcp_line(line: &str) -> (r: Option<ListeningPort>)
    ensures
        match r {
            Some(p) => tcp_entry(line@) == Some(p@),
            None => tcp_entry(line@) is None,
        },
{
    let parts = words_of(line);
    if parts.len() < 4 {
        return None;
    }
    assert(parts@[3]@ == views(parts@)[3]);
    assert(parts@[1]@ == views(parts@)[1]);
    if parts[3] != String::from_str("0A") {
        return None;
    }
    let local = parts[1].as_str();
    let lv = chars_of(local);
    let c = match find_char(&lv, ':') {
        Some(c) => c,
        None => return None,
    };
    let port_text = local.substring_char(c + 1, lv.len());
    assert(lv@.subrange(c + 1, lv.len() as int) =~= lv@.skip(c + 1));
    match parse_unsigned_str(port_text, 16, 65535) {
        Some(p) => {
            assert(lv@.subrange(0, c as int) =~= lv@.take(c as int));
            let addr = parse_hex_ip(local.substring_char(0, c));
            Some(
                ListeningPort {
                    protocol: String::from_str("tcp"),
                    local_address: addr,
                    port: p as u16,
                    process_name: String::new(),
                    pid: None,
                },
            )
        },
        None => None,
    }
}

/// Reads the listening TCP sockets from the content of `/proc/net/tcp`.
pub fn parse_proc_net_tcp(content: &str) -> (ports: Vec<ListeningPort>)
    ensures
        port_views(ports@) == tcp_listing(content@),
{
    let ls = lines_of(content);
    let mut ports: Vec<ListeningPort> = Vec::new();
    if ls.len() == 0 {
        assert(port_views(ports@) =~= Seq::<PortView>::empty());
        return ports;
    }
    let ghost rest = views(ls@).skip(1);
    let mut i: usize = 1;
    assert(rest.take(0) =~= Seq::<Seq<char>>::empty());
    while i < ls.len()
        invariant
            1 <= i <= ls@.len(),
            rest == views(ls@).skip(1),
            port_views(ports@) =~= tcp_entries(rest.take(i - 1)),
        decreases ls@.len() - i,
    {
        assert(rest.take(i as int).drop_last() =~= rest.take(i - 1));
        assert(rest.take(i as int).last() == ls@[i as int]@);
        match tcp_line(ls[i].as_str()) {
            Some(p) => {
                ports.push(p);
            },
            None => {},
        }
        i = i + 1;
    }
    assert(rest.take(i - 1) =~= rest);
    ports
}

proof fn lemma_bytes(a: int, b: int, c: int, d: int)
    requires
        0 <= a < 256,
        0 <= b < 256,
        0 <= c < 256,
        0 <= d < 256,
    ensures
        (a + 256 * b + 65536 * c + 16777216 * d) % 256 == a,
        ((a + 256 * b + 65536 * c + 16777216 * d) / 256) % 256 == b,
        ((a + 256 * b + 65536 * c + 16777216 * d) / 65536) % 256 == c,
        ((a + 256 * b + 65536 * c + 16777216 * d) / 16777216) % 256 == d,
{
    let x = a + 256 * b + 65536 * c + 16777216 * d;
    assert(x == a + 256 * (b + 256 * c + 65536 * d));
    vstd::arithmetic::div_mod::lemma_fundamental_div_mod_converse(x, 256, b + 256 * c + 65536 * d, a);
    let y = b + 256 * c + 65536 * d;
    assert(y == b + 256 * (c + 256 * d));
    vstd::arithmetic::div_mod::lemma_fundamental_div_mod_converse(y, 256, c + 256 * d, b);
    assert(x == (a + 256 * b) + 65536 * (c + 256 * d));
    vstd::arithmetic::div_mod::lemma_fundamental_div_mod_converse(x, 65536, c + 256 * d, a + 256 * b);
    let z = c + 256 * d;
    vstd::arithmetic::div_mod::lemma_fundamental_div_mod_converse(z, 256, d, c);
    assert(x == (a + 256 * b + 65536 * c) + 16777216 * d);
    vstd::arithmetic::div_mod::lemma_fundamental_div_mod_converse(x, 16777216, d, a + 256 * b + 65536 * c);
    vstd::arithmetic::div_mod::lemma_fundamental_div_mod_converse(d, 256, 0, d);
}

/// An address field of `/proc/net/tcp` holds the four bytes of the address
/// least significant first: eight hexadecimal digits whose value is
/// `a + 256 b + 65536 c + 16777216 d` (each of `a`..`d` a byte) read as
/// `a.b.c.d`.
pub proof fn hex_addresses_are_little_endian(hex: Seq<char>, a: nat, b: nat, c: nat, d: nat)
    requires
        hex.len() == 8,
        a < 256,
        b < 256,
        c < 256,
        d < 256,
        parse_unsigned(hex, 16, u32::MAX as nat) == Some(a + 256 * b + 65536 * c + 16777216 * d),
    ensures
        hex_ip(hex) == decimal(a) + "."@ + decimal(b) + "."@ + decimal(c) + "."@ + decimal(d),
{
    lemma_bytes(a as int, b as int, c as int, d as int);
}

proof fn lemma_last_index(s: Seq<char>, c: char)
    ensures
        last_index(s, c) matches Some(i) ==> 0 <= i < s.len() && s[i] == c && forall|q: int|
            i < q < s.len() ==> #[trigger] s[q] != c,
        last_index(s, c) is None ==> forall|q: int| 0 <= q < s.len() ==> #[trigger] s[q] != c,
    decreases s.len(),
{
    if s.len() > 0 && s.last() != c {
        lemma_last_index(s.drop_last(), c);
        assert forall|q: int| 0 <= q < s.len() - 1 implies #[trigger] s[q] == s.drop_last()[q] by {}
    }
}

/// The socket that a line of `ss` output describes is read from the words
/// of the trimmed line: the protocol is the first word, and the fifth word
/// is the local address, a `:`, and a port number that names no further
/// `:` and reads as the (non-zero) port.
pub proof fn ss_sockets_are_line_words(l: Seq<char>)
    ensures
        ss_entry(l) matches Some(e) ==> {
            let w = words(trim(l));
            &&& w.len() >= 5
            &&& e.protocol == w[0]
            &&& e.port != 0
            &&& exists|digits: Seq<char>|
                #![trigger parse_unsigned(digits, 10, 65535)]
                w[4] == e.local_address + ":"@ + digits && !digits.contains(':') && parse_unsigned(
                    digits,
                    10,
                    65535,
                ) == Some(e.port as nat)
        },
{
    let t = trim(l);
    let parts = words(t);
    if t.len() > 0 && parts.len() >= 5 {
        let local = parts[4];
        lemma_last_index(local, ':');
        match last_index(local, ':') {
            Some(c) => {
                let digits = local.skip(c + 1);
                reveal_strlit(":");
                assert(local =~= local.take(c) + ":"@ + digits);
                if digits.contains(':') {
                    let q = choose|q: int| 0 <= q < digits.len() && digits[q] == ':';
                    assert(local[c + 1 + q] == ':');
                }
                match parse_unsigned(digits, 10, 65535) {
                    Some(p) => {
                        if p != 0 {
                            assert(parse_unsigned(digits, 10, 65535) == Some(((p as u16) as nat)));
                        }
                    },
                    None => {},
                }
            },
            None => {},
        }
    }
}

} // verus!
