//! Kernel connection-table collector: decodes the plain-text TCP tables the
//! kernel exposes (one line per socket, hex-encoded endpoint columns),
//! keeps only rows in the established state, and attributes each row to the
//! process whose file-descriptor links mention the row's socket inode.
//!
//! The caller reads the table files and the per-process descriptor links;
//! everything that interprets that text is decided and proved here.

use vstd::prelude::*;
use vstd::string::*;

use crate::text::{
    all_digits, all_hex, contains_seq, dec_val, first_colon, hex_digit_val, hex_val, is_hex_digit,
    lemma_first_colon, lemma_first_colon_beyond, lemma_hex_val_nonneg, parse_dec_u32,
    parse_hex_bounded, split_columns, split_tokens, str_contains,
};

verus! {

/// A decoded IP address: one 32-bit value for the IPv4 family (most
/// significant byte first, so `127.0.0.1` is `0x7F00_0001`), or eight
/// 16-bit groups in table order for the IPv6 family.
#[derive(Clone, Copy, Debug, PartialEq, Eq, Structural)]
pub enum IpAddress {
    V4(u32),
    V6(u16, u16, u16, u16, u16, u16, u16, u16),
}

/// One endpoint of a connection.
#[derive(Clone, Copy, Debug, PartialEq, Eq, Structural)]
pub struct Endpoint {
    pub ip: IpAddress,
    pub port: u16,
}

/// The 32-bit value with its four bytes in the opposite order.
pub open spec fn swap32(v: int) -> int {
    (v % 256) * 0x1000000 + ((v / 256) % 256) * 0x10000 + ((v / 0x10000) % 256) * 256 + ((
    v / 0x1000000) % 256)
}

/// 16 to the power `n`.
pub open spec fn pow16(n: nat) -> int
    decreases n,
{
    if n == 0 {
        1
    } else {
        16 * pow16((n - 1) as nat)
    }
}

/// A hexadecimal string's value is bounded by 16 to its length.
pub proof fn lemma_hex_val_pow(s: Seq<char>)
    requires
        all_hex(s),
    ensures
        0 <= hex_val(s) < pow16(s.len()),
    decreases s.len(),
{
    if s.len() == 0 {
    } else {
        assert(all_hex(s.drop_last()));
        lemma_hex_val_pow(s.drop_last());
        assert(is_hex_digit(s.last()));
        assert(0 <= hex_digit_val(s.last()) < 16);
    }
}

/// The hex port field decodes: non-empty, all hexadecimal, fits 16 bits.
pub open spec fn port_ok(p: Seq<char>) -> bool {
    p.len() > 0 && all_hex(p) && hex_val(p) <= 0xFFFF
}

/// The IPv4 address field decodes: non-empty, all hexadecimal, fits 32
/// bits.  The stored word is byte-swapped relative to network order.
pub open spec fn v4_addr_ok(a: Seq<char>) -> bool {
    a.len() > 0 && all_hex(a) && hex_val(a) <= 0xFFFF_FFFF
}

/// The IPv6 address field decodes: eight 16-bit hex groups, 32 digits.
pub open spec fn v6_addr_ok(a: Seq<char>) -> bool {
    a.len() == 32 && all_hex(a)
}

/// The `k`-th 16-bit group of an IPv6 address field, in table order.
pub open spec fn v6_group(a: Seq<char>, k: int) -> u16 {
    hex_val(a.subrange(4 * k, 4 * k + 4)) as u16
}

/// What an `address:port` field of the kernel table means: the field must
/// hold exactly one colon; the part after it is a 16-bit hex port; the part
/// before it is decoded per address family, with the IPv4 word reversed
/// byte-wise before interpretation.  Anything else is malformed.
pub open spec fn parse_ip_port_spec(s: Seq<char>, is_ipv6: bool) -> Option<(IpAddress, u16)> {
    let k = first_colon(s);
    let addr = s.take(k);
    let port = s.skip(k + 1);
    if !(k < s.len() && (forall|j: int| k < j < s.len() ==> s[j] != ':')) {
        None
    } else if !port_ok(port) {
        None
    } else if is_ipv6 {
        if v6_addr_ok(addr) {
            Some(
                (
                    IpAddress::V6(
                        v6_group(addr, 0),
                        v6_group(addr, 1),
                        v6_group(addr, 2),
                        v6_group(addr, 3),
                        v6_group(addr, 4),
                        v6_group(addr, 5),
                        v6_group(addr, 6),
                        v6_group(addr, 7),
                    ),
                    hex_val(port) as u16,
                ),
            )
        } else {
            None
        }
    } else {
        if v4_addr_ok(addr) {
            Some((IpAddress::V4(swap32(hex_val(addr)) as u32), hex_val(port) as u16))
        } else {
            None
        }
    }
}

fn swap_u32_bytes(v: u32) -> (r: u32)
    ensures
        r == swap32(v as int),
{
    let b0 = v % 256;
    let b1 = (v / 256) % 256;
    let b2 = (v / 65536) % 256;
    let b3 = (v / 16777216) % 256;
    assert(b0 <= 255 && b1 <= 255 && b2 <= 255 && b3 <= 255);
    b0 * 16777216 + b1 * 65536 + b2 * 256 + b3
}

/// One entry of the process listing as the caller scanned it: the entry's
/// name and the link targets of that process's open file descriptors, in
/// directory order.
pub struct ProcessLinks {
    pub name: String,
    pub links: Vec<String>,
}

/// The mathematical value of a scanned process entry.
pub struct ProcessLinksView {
    pub name: Seq<char>,
    pub links: Seq<Seq<char>>,
}

impl View for ProcessLinks {
    type V = ProcessLinksView;

    open spec fn view(&self) -> ProcessLinksView {
        ProcessLinksView { name: self.name@, links: self.links@.map_values(|l: String| l@) }
    }
}

/// The entry attributes the inode: its name is purely numeric and some
/// descriptor link of it mentions the inode text.
pub open spec fn entry_matches(e: ProcessLinksView, inode: Seq<char>) -> bool {
    all_digits(e.name) && exists|t: int|
        0 <= t < e.links.len() && contains_seq(#[trigger] e.links[t], inode)
}

/// What a numeric entry name yields as a process id: its decimal value, if
/// it is non-empty and fits 32 bits.
pub open spec fn parse_pid_spec(name: Seq<char>) -> Option<u32> {
    if name.len() > 0 && all_digits(name) && dec_val(name) <= u32::MAX {
        Some(dec_val(name) as u32)
    } else {
        None
    }
}

/// Resolves a socket inode to the owning process: the first scanned entry
/// whose descriptor links mention the inode yields its entry name, read as
/// a decimal process id.
pub open spec fn resolve_pid_spec(entries: Seq<ProcessLinksView>, inode: Seq<char>) -> Option<u32>
    decreases entries.len(),
{
    if entries.len() == 0 {
        None
    } else if entry_matches(entries[0], inode) {
        parse_pid_spec(entries[0].name)
    } else {
        resolve_pid_spec(entries.skip(1), inode)
    }
}

/// What one table row (below the header) contributes: the row is kept only
/// when it has at least ten space-delimited columns, its state column
/// (index 3) reads `01` — the established state — and its local endpoint,
/// remote endpoint and inode columns all decode; otherwise it is dropped.
pub open spec fn row_spec(
    line: Seq<char>,
    is_ipv6: bool,
    entries: Seq<ProcessLinksView>,
) -> Option<(Endpoint, Endpoint, u32)> {
    let cols = split_tokens(line);
    if cols.len() <= 9 || cols[3] != "01"@ {
        None
    } else {
        let local = parse_ip_port_spec(cols[1], is_ipv6);
        let remote = parse_ip_port_spec(cols[2], is_ipv6);
        let pid = resolve_pid_spec(entries, cols[9]);
        match (local, remote, pid) {
            (Some(l), Some(rem), Some(p)) => Some(
                (
                    (Endpoint { ip: l.0, port: l.1 }),
                    (Endpoint { ip: rem.0, port: rem.1 }),
                    p,
                ),
            ),
            _ => None,
        }
    }
}

/// The rows a sequence of table lines contributes, in table order.
pub open spec fn rows_spec(
    lines: Seq<Seq<char>>,
    is_ipv6: bool,
    entries: Seq<ProcessLinksView>,
) -> Seq<(Endpoint, Endpoint, u32)>
    decreases lines.len(),
{
    if lines.len() == 0 {
        Seq::empty()
    } else {
        match row_spec(lines[0], is_ipv6, entries) {
            Some(t) => seq![t] + rows_spec(lines.skip(1), is_ipv6, entries),
            None => rows_spec(lines.skip(1), is_ipv6, entries),
        }
    }
}

/// What a whole table yields: its first line is a header and contributes
/// nothing; every further line contributes per [`row_spec`].
pub open spec fn table_spec(
    lines: Seq<Seq<char>>,
    is_ipv6: bool,
    entries: Seq<ProcessLinksView>,
) -> Seq<(Endpoint, Endpoint, u32)> {
    if lines.len() == 0 {
        Seq::empty()
    } else {
        rows_spec(lines.skip(1), is_ipv6, entries)
    }
}

fn parse_row(line: &str, is_ipv6: bool, entries: &Vec<ProcessLinks>) -> (r: Option<
    (Endpoint, Endpoint, u32),
>)
    ensures
        r == row_spec(line@, is_ipv6, entries@.map_values(|e: ProcessLinks| e@)),
{
    let cols = split_columns(line);
    let ghost cview = split_tokens(line@);
    proof {
        assert(cols@.map_values(|t: String| t@) == cview);
    }
    if cols.len() <= 9 {
        return None;
    }
    let established = String::from_str("01");
    if !cols[3].eq(&established) {
        proof {
            assert(cview[3] == cols@[3]@);
        }
        return None;
    }
    proof {
        assert(cview[3] == cols@[3]@);
        assert(cview[1] == cols@[1]@);
        assert(cview[2] == cols@[2]@);
        assert(cview[9] == cols@[9]@);
    }
    let local = NetConnections::parse_ip_port(cols[1].as_str(), is_ipv6);
    let remote = NetConnections::parse_ip_port(cols[2].as_str(), is_ipv6);
    match (local, remote) {
        (Some(l), Some(rem)) => {
            match NetConnections::get_pid_from_inode(entries, cols[9].as_str()) {
                Some(pid) => Some(
                    (
                        Endpoint { ip: l.0, port: l.1 },
                        Endpoint { ip: rem.0, port: rem.1 },
                        pid,
                    ),
                ),
                None => None,
            }
        },
        _ => None,
    }
}

/// The connection table the agent publishes: established rows of both
/// families with their owning process ids.
pub struct NetConnections {
    pub connections: Vec<(Endpoint, Endpoint, u32)>,
}

impl NetConnections {
    /// Builds the table from both families' table lines and the scanned
    /// descriptor links.
    pub fn new(
        tcp_lines: &Vec<String>,
        tcp6_lines: &Vec<String>,
        entries: &Vec<ProcessLinks>,
    ) -> (r: Self)
        ensures
            r.connections@ == table_spec(
                tcp_lines@.map_values(|l: String| l@),
                false,
                entries@.map_values(|e: ProcessLinks| e@),
            ) + table_spec(
                tcp6_lines@.map_values(|l: String| l@),
                true,
                entries@.map_values(|e: ProcessLinks| e@),
            ),
    {
        NetConnections { connections: Self::get_established_connections(tcp_lines, tcp6_lines, entries) }
    }

    /// Decodes one `address:port` field.  Returns exactly what
    /// [`parse_ip_port_spec`] assigns to the field: `None` for anything
    /// malformed, otherwise the decoded endpoint parts.
    pub fn parse_ip_port(s: &str, is_ipv6: bool) -> (r: Option<(IpAddress, u16)>)
        ensures
            r == parse_ip_port_spec(s@, is_ipv6),
    {
        let n = s.unicode_len();
        let mut k: usize = 0;
        while k < n && s.get_char(k) != ':'
            invariant
                n == s@.len(),
                k <= n,
                forall|j: int| 0 <= j < k ==> s@[j] != ':',
            decreases n - k,
        {
            k += 1;
        }
        proof {
            lemma_first_colon(s@);
            lemma_first_colon_beyond(s@, k as int);
            assert(first_colon(s@) == k);
        }
        if k == n {
            return None;
        }
        let mut j = k + 1;
        while j < n && s.get_char(j) != ':'
            invariant
                n == s@.len(),
                k < j <= n,
                forall|t: int| k < t < j ==> s@[t] != ':',
            decreases n - j,
        {
            j += 1;
        }
        if j < n {
            return None;
        }
        let ghost addr_spec = s@.take(k as int);
        let ghost port_spec = s@.skip(k as int + 1);
        let addr = s.substring_char(0, k);
        let port_str = s.substring_char(k + 1, n);
        proof {
            assert(addr@ =~= addr_spec);
            assert(port_str@ =~= port_spec);
        }
        let port: u16 = match parse_hex_bounded(port_str, 0xFFFF) {
            None => {
                return None;
            },
            Some(v) => {
                proof {
                    lemma_hex_val_nonneg(port_str@);
                }
                v as u16
            },
        };
        if is_ipv6 {
            if k != 32 {
                return None;
            }
            let mut groups: Vec<u16> = Vec::new();
            let mut gi: usize = 0;
            while gi < 8
                invariant
                    gi <= 8,
                    groups@.len() == gi,
                    n == s@.len(),
                    k as int == first_colon(s@),
                    k < n,
                    k == 32,
                    forall|t: int| k < t < n ==> s@[t] != ':',
                    addr_spec == s@.take(k as int),
                    port_spec == s@.skip(k as int + 1),
                    port_ok(port_spec),
                    port == hex_val(port_spec) as u16,
                    addr@ == addr_spec,
                    addr_spec.len() == 32,
                    forall|t: int|
                        0 <= t < gi ==> all_hex(#[trigger] addr_spec.subrange(4 * t, 4 * t + 4)),
                    forall|t: int| 0 <= t < gi ==> groups@[t] == v6_group(addr_spec, t),
                decreases 8 - gi,
            {
                let chunk = addr.substring_char(4 * gi, 4 * gi + 4);
                proof {
                    assert(chunk@ =~= addr_spec.subrange(4 * gi as int, 4 * gi as int + 4));
                }
                match parse_hex_bounded(chunk, 0xFFFF) {
                    None => {
                        proof {
                            if all_hex(addr_spec) {
                                assert forall|t: int| 0 <= t < 4 implies is_hex_digit(
                                    #[trigger] chunk@[t],
                                ) by {
                                    assert(chunk@[t] == addr_spec[4 * gi + t]);
                                }
                                lemma_hex_val_pow(chunk@);
                                assert(pow16(0) == 1);
                                assert(pow16(1) == 16);
                                assert(pow16(2) == 256);
                                assert(pow16(3) == 4096);
                                assert(pow16(4) == 65536);
                                assert(false);
                            }
                        }
                        return None;
                    },
                    Some(v) => {
                        proof {
                            lemma_hex_val_nonneg(chunk@);
                        }
                        groups.push(v as u16);
                    },
                }
                gi += 1;
            }
            proof {
                assert forall|i: int| 0 <= i < 32 implies is_hex_digit(#[trigger] addr_spec[i]) by {
                    let t = i / 4;
                    assert(all_hex(addr_spec.subrange(4 * t, 4 * t + 4)));
                    assert(addr_spec.subrange(4 * t, 4 * t + 4)[i - 4 * t] == addr_spec[i]);
                }
                assert(v6_addr_ok(addr_spec));
            }
            Some(
                (
                    IpAddress::V6(
                        groups[0],
                        groups[1],
                        groups[2],
                        groups[3],
                        groups[4],
                        groups[5],
                        groups[6],
                        groups[7],
                    ),
                    port,
                ),
            )
        } else {
            match parse_hex_bounded(addr, 0xFFFF_FFFF) {
                None => None,
                Some(v) => {
                    proof {
                        lemma_hex_val_nonneg(addr@);
                    }
                    let swapped = swap_u32_bytes(v as u32);
                    Some((IpAddress::V4(swapped), port))
                },
            }
        }
    }

    /// Scans the process entries for the first one whose descriptor links
    /// mention the inode and returns its name as a process id.
    pub fn get_pid_from_inode(entries: &Vec<ProcessLinks>, inode: &str) -> (r: Option<u32>)
        ensures
            r == resolve_pid_spec(entries@.map_values(|e: ProcessLinks| e@), inode@),
    {
        let ghost eview = entries@.map_values(|e: ProcessLinks| e@);
        let n = entries.len();
        let mut i: usize = 0;
        proof {
            assert(eview.skip(0) =~= eview);
        }
        while i < n
            invariant
                n == entries@.len(),
                i <= n,
                eview == entries@.map_values(|e: ProcessLinks| e@),
                resolve_pid_spec(eview, inode@) == resolve_pid_spec(eview.skip(i as int), inode@),
            decreases n - i,
        {
            let e = &entries[i];
            proof {
                assert(eview[i as int] == e@);
                assert(eview.skip(i as int)[0] == eview[i as int]);
                assert(eview.skip(i as int).skip(1) =~= eview.skip(i as int + 1));
            }
            let numeric = crate::text::is_numeric_name(e.name.as_str());
            let mut found = false;
            if numeric {
                let m = e.links.len();
                let mut l: usize = 0;
                while l < m && !found
                    invariant
                        m == e.links@.len(),
                        l <= m,
                        !found ==> forall|t: int|
                            0 <= t < l ==> !contains_seq(#[trigger] e@.links[t], inode@),
                        found ==> exists|t: int|
                            0 <= t < e@.links.len() && contains_seq(#[trigger] e@.links[t], inode@),
                    decreases m - l,
                {
                    if str_contains(e.links[l].as_str(), inode) {
                        proof {
                            assert(e@.links[l as int] == e.links@[l as int]@);
                        }
                        found = true;
                        l += 1;
                    } else {
                        proof {
                            assert(e@.links[l as int] == e.links@[l as int]@);
                        }
                        l += 1;
                    }
                }
            }
            if numeric && found {
                proof {
                    assert(entry_matches(eview.skip(i as int)[0], inode@));
                }
                let r = parse_dec_u32(e.name.as_str());
                proof {
                    if e.name@.len() > 0 && all_digits(e.name@) && dec_val(e.name@) <= u32::MAX {
                        crate::text::lemma_dec_val_nonneg(e.name@);
                    }
                }
                return r;
            }
            proof {
                if numeric {
                    assert(!found);
                    assert(forall|t: int|
                        0 <= t < e@.links.len() ==> !contains_seq(#[trigger] e@.links[t], inode@));
                    assert(!entry_matches(eview.skip(i as int)[0], inode@));
                } else {
                    assert(!all_digits(e@.name));
                    assert(!entry_matches(eview.skip(i as int)[0], inode@));
                }
            }
            i += 1;
        }
        proof {
            assert(eview.skip(n as int) =~= Seq::<ProcessLinksView>::empty());
        }
        None
    }

    /// Decodes one kernel connection table, handed over as its text lines, and
    /// attributes each established row through the scanned descriptor links.
    pub fn get_established_connections_from_proc(
        lines: &Vec<String>,
        is_ipv6: bool,
        entries: &Vec<ProcessLinks>,
    ) -> (r: Vec<(Endpoint, Endpoint, u32)>)
        ensures
            r@ == table_spec(
                lines@.map_values(|l: String| l@),
                is_ipv6,
                entries@.map_values(|e: ProcessLinks| e@),
            ),
    {
        let ghost lview = lines@.map_values(|l: String| l@);
        let ghost eview = entries@.map_values(|e: ProcessLinks| e@);
        let mut out: Vec<(Endpoint, Endpoint, u32)> = Vec::new();
        if lines.len() == 0 {
            return out;
        }
        let n = lines.len();
        let mut i: usize = 1;
        proof {
            assert(lview.skip(1).skip(0) =~= lview.skip(1));
            assert(out@ + rows_spec(lview.skip(1), is_ipv6, eview) =~= rows_spec(
                lview.skip(1),
                is_ipv6,
                eview,
            ));
        }
        while i < n
            invariant
                n == lines@.len(),
                1 <= i <= n,
                lview == lines@.map_values(|l: String| l@),
                eview == entries@.map_values(|e: ProcessLinks| e@),
                out@ + rows_spec(lview.skip(i as int), is_ipv6, eview) == rows_spec(
                    lview.skip(1),
                    is_ipv6,
                    eview,
                ),
            decreases n - i,
        {
            let ghost prefix = out@;
            proof {
                assert(lview.skip(i as int)[0] == lview[i as int]);
                assert(lview[i as int] == lines@[i as int]@);
                assert(lview.skip(i as int).skip(1) =~= lview.skip(i as int + 1));
            }
            match parse_row(lines[i].as_str(), is_ipv6, entries) {
                Some(t) => {
                    out.push(t);
                    proof {
                        assert(out@ =~= prefix + seq![t]);
                        assert((prefix + seq![t]) + rows_spec(lview.skip(i as int + 1), is_ipv6, eview)
                            =~= prefix + (seq![t] + rows_spec(lview.skip(i as int + 1), is_ipv6, eview)));
                    }
                },
                None => {},
            }
            i += 1;
        }
        proof {
            assert(lview.skip(n as int) =~= Seq::<Seq<char>>::empty());
            assert(out@ =~= out@ + Seq::<(Endpoint, Endpoint, u32)>::empty());
        }
        out
    }

    /// Decodes both address families' tables: every established, fully decoded
    /// row of the IPv4 table, in order, followed by those of the IPv6 table.
    pub fn get_established_connections(
        tcp_lines: &Vec<String>,
        tcp6_lines: &Vec<String>,
        entries: &Vec<ProcessLinks>,
    ) -> (r: Vec<(Endpoint, Endpoint, u32)>)
        ensures
            r@ == table_spec(
                tcp_lines@.map_values(|l: String| l@),
                false,
                entries@.map_values(|e: ProcessLinks| e@),
            ) + table_spec(
                tcp6_lines@.map_values(|l: String| l@),
                true,
                entries@.map_values(|e: ProcessLinks| e@),
            ),
    {
        let mut connections = Self::get_established_connections_from_proc(tcp_lines, false, entries);
        let mut v6 = Self::get_established_connections_from_proc(tcp6_lines, true, entries);
        connections.append(&mut v6);
        connections
    }
}

/// A row whose state column does not read `01` is never kept, whatever the
/// rest of the row holds.
pub proof fn lemma_non_established_dropped(
    line: Seq<char>,
    is_ipv6: bool,
    entries: Seq<ProcessLinksView>,
)
    requires
        split_tokens(line).len() > 3,
        split_tokens(line)[3] != "01"@,
    ensures
        row_spec(line, is_ipv6, entries) is None,
{
}

} // verus!
