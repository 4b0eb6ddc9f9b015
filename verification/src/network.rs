//! The network panel's data: interfaces, addresses and the kernel route
//! table.  The shell gathers the raw data; the route-table text and the
//! small field extractors are parsed here.

use vstd::prelude::*;

use crate::rank::{find_sub_from, find_substr};
use crate::text::{all_digits, chars_of, chunks_view, dec_seq, dec_val, digit_val, find_from,
    lines_of, lines_spec, parse_u64_chars, split_ws, split_ws_spec, string_from_chars,
    u64_dec_chars};

verus! {

/// One network interface with its addresses and traffic counters.
pub struct Interface {
    pub name: String,
    pub state: String,
    pub mac: Option<String>,
    pub mtu: Option<u32>,
    pub ipv4: Vec<String>,
    pub ipv6: Vec<String>,
    pub rx_bytes: u64,
    pub tx_bytes: u64,
}

/// One kernel route.
pub struct Route {
    pub destination: String,
    pub gateway: Option<String>,
    pub interface: String,
    pub metric: Option<u32>,
}

/// The mathematical value of a [`Route`].
pub ghost struct RouteV {
    pub destination: Seq<char>,
    pub gateway: Option<Seq<char>>,
    pub interface: Seq<char>,
    pub metric: Option<int>,
}

impl View for Route {
    type V = RouteV;

    open spec fn view(&self) -> RouteV {
        RouteV {
            destination: self.destination@,
            gateway: (match &self.gateway {
                Some(g) => Some(g@),
                None => None,
            }),
            interface: self.interface@,
            metric: (match self.metric {
                Some(m) => Some(m as int),
                None => None,
            }),
        }
    }
}

/// The views of a sequence of routes.
pub open spec fn routes_view(s: Seq<Route>) -> Seq<RouteV> {
    Seq::new(s.len(), |i: int| s[i]@)
}

/// The gathered network snapshot.
pub struct NetworkInfo {
    pub interfaces: Vec<Interface>,
    pub routes: Vec<Route>,
}

/// The value of one hexadecimal digit, or a negative marker.
pub open spec fn hex_val(c: char) -> int {
    if digit_val(c) is Some {
        digit_val(c)->Some_0
    } else if c == 'a' || c == 'A' {
        10
    } else if c == 'b' || c == 'B' {
        11
    } else if c == 'c' || c == 'C' {
        12
    } else if c == 'd' || c == 'D' {
        13
    } else if c == 'e' || c == 'E' {
        14
    } else if c == 'f' || c == 'F' {
        15
    } else {
        -1
    }
}

/// Whether every character is a hexadecimal digit.
pub open spec fn all_hex(s: Seq<char>) -> bool {
    forall|i: int| 0 <= i < s.len() ==> #[trigger] hex_val(s[i]) >= 0
}

/// The dotted-decimal rendering of a kernel route address: the four bytes
/// of the eight-digit little-endian hex field, last byte first, or the
/// literal "invalid" for anything else.
pub open spec fn hex_ip_spec(s: Seq<char>) -> Seq<char> {
    if s.len() == 8 && all_hex(s) {
        let b0 = 16 * hex_val(s[0]) + hex_val(s[1]);
        let b1 = 16 * hex_val(s[2]) + hex_val(s[3]);
        let b2 = 16 * hex_val(s[4]) + hex_val(s[5]);
        let b3 = 16 * hex_val(s[6]) + hex_val(s[7]);
        dec_seq(b3 as nat) + seq!['.'] + dec_seq(b2 as nat) + seq!['.'] + dec_seq(b1 as nat)
            + seq!['.'] + dec_seq(b0 as nat)
    } else {
        "invalid"@
    }
}

fn hex_val_exec(c: char) -> (r: i8)
    ensures
        r as int == hex_val(c),
{
    if c == '0' {
        0
    } else if c == '1' {
        1
    } else if c == '2' {
        2
    } else if c == '3' {
        3
    } else if c == '4' {
        4
    } else if c == '5' {
        5
    } else if c == '6' {
        6
    } else if c == '7' {
        7
    } else if c == '8' {
        8
    } else if c == '9' {
        9
    } else if c == 'a' || c == 'A' {
        10
    } else if c == 'b' || c == 'B' {
        11
    } else if c == 'c' || c == 'C' {
        12
    } else if c == 'd' || c == 'D' {
        13
    } else if c == 'e' || c == 'E' {
        14
    } else if c == 'f' || c == 'F' {
        15
    } else {
        -1
    }
}

/// Renders one little-endian hex address field of the kernel route table
/// in dotted decimal.
pub fn hex_to_ip(hex: &str) -> (r: String)
    ensures
        r@ == hex_ip_spec(hex@),
{
    let chars = chars_of(hex);
    if chars.len() != 8 {
        return "invalid".to_owned();
    }
    let mut vals: Vec<u64> = Vec::new();
    let mut i: usize = 0;
    while i < 8
        invariant
            chars@.len() == 8,
            chars@ == hex@,
            i <= 8,
            vals@.len() == i,
            forall|j: int| 0 <= j < i ==> #[trigger] vals@[j] as int == hex_val(chars@[j]),
            forall|j: int| 0 <= j < i ==> hex_val(chars@[j]) >= 0,
        decreases 8 - i,
    {
        let v = hex_val_exec(chars[i]);
        if v < 0 {
            proof {
                assert(!all_hex(hex@)) by {
                    assert(hex_val(hex@[i as int]) < 0);
                }
            }
            return "invalid".to_owned();
        }
        vals.push(v as u64);
        i = i + 1;
    }
    let b0 = 16 * vals[0] + vals[1];
    let b1 = 16 * vals[2] + vals[3];
    let b2 = 16 * vals[4] + vals[5];
    let b3 = 16 * vals[6] + vals[7];
    let mut out: Vec<char> = Vec::new();
    u64_dec_chars(b3, &mut out);
    out.push('.');
    u64_dec_chars(b2, &mut out);
    out.push('.');
    u64_dec_chars(b1, &mut out);
    out.push('.');
    u64_dec_chars(b0, &mut out);
    proof {
        assert(all_hex(hex@));
        assert(out@ =~= hex_ip_spec(hex@));
    }
    string_from_chars(&out)
}

/// What the naive string extractor returns: the text between the first
/// occurrence of the key and the next double quote.
pub open spec fn json_string_spec(content: Seq<char>, key: Seq<char>) -> Option<Seq<char>> {
    match find_sub_from(content, key, 0) {
        None => None,
        Some(st) => {
            let after = content.subrange(st + key.len(), content.len() as int);
            match find_from(after, '"', 0) {
                None => None,
                Some(e) => Some(after.subrange(0, e)),
            }
        },
    }
}

/// Extracts the text between the first occurrence of the key and the next
/// double quote.
pub fn extract_json_string(content: &str, key: &str) -> (r: Option<String>)
    ensures
        (match r {
            Some(v) => json_string_spec(content@, key@) == Some(v@),
            None => json_string_spec(content@, key@) is None,
        }),
{
    let cc = chars_of(content);
    let kc = chars_of(key);
    let st = match find_substr(&cc, &kc) {
        Some(st) => st,
        None => {
            return None;
        }
    };
    proof {
        crate::rank::lemma_find_sub_props(content@, key@, 0);
        assert(st + kc@.len() <= cc@.len());
    }
    let mut after: Vec<char> = Vec::new();
    let cl = cc.len();
    let mut i: usize = st + kc.len();
    while i < cl
        invariant
            cl == cc@.len(),
            st + kc@.len() <= i <= cl,
            kc@ == key@,
            cc@ == content@,
            after@ == content@.subrange(st + key@.len(), i as int),
        decreases cl - i,
    {
        after.push(cc[i]);
        proof {
            assert(after@ =~= content@.subrange(st + key@.len(), i + 1 as int));
        }
        i = i + 1;
    }
    proof {
        assert(after@ =~= content@.subrange(st + key@.len(), content@.len() as int));
    }
    let al = after.len();
    let mut e: usize = 0;
    while e < al
        invariant
            al == after@.len(),
            e <= al,
            find_sub_from(content@, key@, 0) == Some(st as int),
            st + key@.len() <= content@.len(),
            after@ == content@.subrange(st + key@.len(), content@.len() as int),
            find_from(after@, '"', 0) == find_from(after@, '"', e as int),
        decreases al - e,
    {
        if after[e] == '"' {
            proof {
                assert(find_from(after@, '"', e as int) == Some(e as int));
            }
            let mut out: Vec<char> = Vec::new();
            let mut j: usize = 0;
            while j < e
                invariant
                    e <= after@.len(),
                    j <= e,
                    find_sub_from(content@, key@, 0) == Some(st as int),
                    st + key@.len() <= content@.len(),
                    after@ == content@.subrange(st + key@.len(), content@.len() as int),
                    find_from(after@, '"', 0) == Some(e as int),
                    out@ == after@.subrange(0, j as int),
                decreases e - j,
            {
                out.push(after[j]);
                proof {
                    assert(out@ =~= after@.subrange(0, j + 1 as int));
                }
                j = j + 1;
            }
            return Some(string_from_chars(&out));
        }
        e = e + 1;
    }
    None
}

/// The index of the first non-digit character at or after `from`.
pub open spec fn non_digit_from(s: Seq<char>, from: int) -> Option<int>
    decreases s.len() - from,
    when 0 <= from
{
    if from >= s.len() {
        None
    } else if digit_val(s[from]) is None {
        Some(from)
    } else {
        non_digit_from(s, from + 1)
    }
}

/// What the naive number extractor returns: the run of digits right after
/// the first occurrence of the key, read as a number, if it is non-empty
/// and fits.
pub open spec fn json_u32_spec(content: Seq<char>, key: Seq<char>) -> Option<int> {
    match find_sub_from(content, key, 0) {
        None => None,
        Some(st) => {
            let after = content.subrange(st + key.len(), content.len() as int);
            let end = (match non_digit_from(after, 0) {
                Some(e) => e,
                None => after.len() as int,
            });
            let digits = after.subrange(0, end);
            if digits.len() > 0 && dec_val(digits) <= u32::MAX as int {
                Some(dec_val(digits))
            } else {
                None
            }
        },
    }
}

/// Extracts the run of digits right after the first occurrence of the key,
/// read as a number.
pub fn extract_json_u32(content: &str, key: &str) -> (r: Option<u32>)
    ensures
        (match r {
            Some(v) => json_u32_spec(content@, key@) == Some(v as int),
            None => json_u32_spec(content@, key@) is None,
        }),
{
    let cc = chars_of(content);
    let kc = chars_of(key);
    let st = match find_substr(&cc, &kc) {
        Some(st) => st,
        None => {
            return None;
        }
    };
    proof {
        crate::rank::lemma_find_sub_props(content@, key@, 0);
        assert(st + kc@.len() <= cc@.len());
    }
    let cl = cc.len();
    let mut digits: Vec<char> = Vec::new();
    let mut i: usize = st + kc.len();
    let ghost base = st + kc@.len();
    while i < cl && digit_val_is_some(cc[i])
        invariant
            cl == cc@.len(),
            base == st + key@.len(),
            base <= i as int <= cl,
            kc@ == key@,
            cc@ == content@,
            digits@ == content@.subrange(base as int, i as int),
            forall|j: int| base <= j < i ==> digit_val(content@[j]) is Some,
        decreases cl - i,
    {
        digits.push(cc[i]);
        proof {
            assert(digits@ =~= content@.subrange(base as int, i + 1 as int));
        }
        i = i + 1;
    }
    proof {
        let after = content@.subrange(base as int, cl as int);
        assert forall|j: int| 0 <= j < i - base implies digit_val(#[trigger] after[j]) is Some by {
            assert(after[j] == content@[base + j]);
        }
        if (i as int) < cl {
            assert(digit_val(after[i - base]) is None);
            lemma_non_digit(after, 0, i - base);
        } else {
            lemma_non_digit_none(after, 0);
        }
        assert(digits@ =~= after.subrange(0, i - base));
    }
    match parse_u64_chars(&digits) {
        Some(v) => {
            if v <= 0xffff_ffff {
                Some(v as u32)
            } else {
                None
            }
        }
        None => None,
    }
}

/// Whether one character is a decimal digit.
fn digit_val_is_some(c: char) -> (r: bool)
    ensures
        r == (digit_val(c) is Some),
{
    c == '0' || c == '1' || c == '2' || c == '3' || c == '4' || c == '5' || c == '6' || c == '7'
        || c == '8' || c == '9'
}

/// A run of digits from `from` to `at` followed by a non-digit puts the
/// first non-digit exactly at `at`.
proof fn lemma_non_digit(s: Seq<char>, from: int, at: int)
    requires
        0 <= from <= at < s.len(),
        forall|j: int| from <= j < at ==> digit_val(#[trigger] s[j]) is Some,
        digit_val(s[at]) is None,
    ensures
        non_digit_from(s, from) == Some(at),
    decreases at - from,
{
    if from < at {
        lemma_non_digit(s, from + 1, at);
    }
}

/// A sequence of digits from `from` on has no non-digit at all.
proof fn lemma_non_digit_none(s: Seq<char>, from: int)
    requires
        0 <= from,
        forall|j: int| from <= j < s.len() ==> digit_val(#[trigger] s[j]) is Some,
    ensures
        non_digit_from(s, from) is None,
    decreases s.len() - from,
{
    if from < s.len() {
        lemma_non_digit_none(s, from + 1);
    }
}

/// The route one line of the kernel route table describes, if it has
/// enough fields: interface, destination (the zero address rendered as
/// "default"), gateway (absent for the zero field) and metric.
pub open spec fn route_of_line(line: Seq<char>) -> Option<RouteV> {
    let parts = split_ws_spec(line);
    if parts.len() >= 8 {
        let dest_ip = hex_ip_spec(parts[1]);
        Some(
            RouteV {
                destination: (if dest_ip == "0.0.0.0"@ {
                    "default"@
                } else {
                    dest_ip
                }),
                gateway: (if parts[2] != "00000000"@ {
                    Some(hex_ip_spec(parts[2]))
                } else {
                    None
                }),
                interface: parts[0],
                metric: (if split_ws_spec(line)[6].len() > 0 && all_digits(parts[6]) && dec_val(
                    parts[6],
                ) <= u32::MAX as int {
                    Some(dec_val(parts[6]))
                } else {
                    None
                }),
            },
        )
    } else {
        None
    }
}

/// The routes of the whole table text: every line after the header that
/// has enough fields, in order.
pub open spec fn routes_spec(ls: Seq<Seq<char>>) -> Seq<RouteV>
    decreases ls.len(),
{
    if ls.len() == 0 {
        Seq::empty()
    } else {
        let rest = routes_spec(ls.drop_last());
        match route_of_line(ls.last()) {
            Some(r) => rest.push(r),
            None => rest,
        }
    }
}


fn route_of_line_exec(line: &Vec<char>) -> (r: Option<Route>)
    ensures
        (match r {
            Some(v) => route_of_line(line@) == Some(v@),
            None => route_of_line(line@) is None,
        }),
{
    let parts = split_ws(line);
    if parts.len() < 8 {
        return None;
    }
    proof {
        assert(chunks_view(parts@)[0] == parts@[0]@);
        assert(chunks_view(parts@)[1] == parts@[1]@);
        assert(chunks_view(parts@)[2] == parts@[2]@);
        assert(chunks_view(parts@)[6] == parts@[6]@);
    }
    let interface = string_from_chars(&parts[0]);
    let dest_str = string_from_chars(&parts[1]);
    let dest_ip = hex_to_ip(dest_str.as_str());
    let destination = if crate::text::str_eq(dest_ip.as_str(), "0.0.0.0") {
        "default".to_owned()
    } else {
        dest_ip
    };
    let gw_str = string_from_chars(&parts[2]);
    let gateway = if !crate::text::str_eq(gw_str.as_str(), "00000000") {
        Some(hex_to_ip(gw_str.as_str()))
    } else {
        None
    };
    let metric: Option<u32> = match parse_u64_chars(&parts[6]) {
        Some(v) => {
            if v <= 0xffff_ffff {
                Some(v as u32)
            } else {
                None
            }
        }
        None => None,
    };
    Some(Route { destination, gateway, interface, metric })
}

/// Parses the kernel route table text: every line after the header that
/// has enough fields becomes a route, in order.
pub fn parse_route_table(content: &str) -> (r: Vec<Route>)
    ensures
        routes_view(r@) == routes_spec(
            (if lines_spec(content@).len() > 0 {
                lines_spec(content@).drop_first()
            } else {
                lines_spec(content@)
            }),
        ),
{
    let cc = chars_of(content);
    let ls = lines_of(&cc);
    let ghost body = if lines_spec(content@).len() > 0 {
        lines_spec(content@).drop_first()
    } else {
        lines_spec(content@)
    };
    let mut r: Vec<Route> = Vec::new();
    let ll = ls.len();
    if ll == 0 {
        proof {
            assert(routes_view(r@) =~= routes_spec(body));
        }
        return r;
    }
    let mut i: usize = 1;
    while i < ll
        invariant
            ll == ls@.len(),
            ll >= 1,
            1 <= i <= ll,
            chunks_view(ls@) == lines_spec(content@),
            body == lines_spec(content@).drop_first(),
            routes_view(r@) == routes_spec(body.subrange(0, i - 1)),
        decreases ll - i,
    {
        let ghost pre = body.subrange(0, i - 1);
        let ghost cur = body.subrange(0, i as int);
        proof {
            assert(cur.drop_last() =~= pre);
            assert(cur.last() == ls@[i as int]@);
        }
        match route_of_line_exec(&ls[i]) {
            Some(route) => {
                let ghost rv = route@;
                r.push(route);
                proof {
                    assert(routes_view(r@) =~= routes_spec(cur));
                }
            }
            None => {
                proof {
                    assert(routes_view(r@) =~= routes_spec(cur));
                }
            }
        }
        i = i + 1;
    }
    proof {
        assert(body.subrange(0, (ll - 1) as int) =~= body);
    }
    r
}

/// The network panel: the gathered snapshot with a cursor over the
/// interface list.
pub struct NetworkContext {
    pub info: Option<NetworkInfo>,
    pub error: Option<String>,
    pub selected_interface: usize,
    pub scroll_offset: usize,
}

impl NetworkContext {
    /// How many interfaces the snapshot holds.
    pub open spec fn iface_count(self) -> int {
        match self.info {
            Some(info) => info.interfaces@.len() as int,
            None => 0,
        }
    }

    /// The cursor lies in the interface list whenever it is non-empty.
    pub open spec fn wf(self) -> bool {
        self.iface_count() > 0 ==> (self.selected_interface as int) < self.iface_count()
    }

    /// An empty panel waiting for its first snapshot.
    pub fn new() -> (r: NetworkContext)
        ensures
            r.wf(),
            r.info is None,
            r.error is None,
            r.selected_interface == 0usize,
            r.scroll_offset == 0usize,
    {
        NetworkContext { info: None, error: None, selected_interface: 0, scroll_offset: 0 }
    }

    /// Applies the outcome of a gather: the snapshot or the error it
    /// failed with, with the cursor reset.
    pub fn refresh(&mut self, result: Result<NetworkInfo, String>)
        ensures
            final(self).wf(),
            final(self).selected_interface == 0usize,
            final(self).scroll_offset == 0usize,
            (match result {
                Ok(info) => final(self).info == Some(info) && final(self).error is None,
                Err(e) => final(self).info is None && final(self).error == Some(e),
            }),
    {
        match result {
            Ok(info) => {
                self.info = Some(info);
                self.error = None;
            }
            Err(e) => {
                self.info = None;
                self.error = Some(e);
            }
        }
        self.selected_interface = 0;
        self.scroll_offset = 0;
    }

    /// Moves the cursor up one interface, clamped at the top.
    pub fn move_up(&mut self)
        requires
            old(self).wf(),
        ensures
            final(self).wf(),
            final(self).selected_interface as int == (if old(self).selected_interface > 0 {
                old(self).selected_interface - 1
            } else {
                0int
            }),
            final(self).info == old(self).info,
            final(self).error == old(self).error,
    {
        if self.selected_interface > 0 {
            self.selected_interface = self.selected_interface - 1;
        }
    }

    /// Moves the cursor down one interface, clamped at the bottom.
    pub fn move_down(&mut self)
        requires
            old(self).wf(),
        ensures
            final(self).wf(),
            final(self).selected_interface as int == (if old(self).selected_interface + 1 < old(self).iface_count() {
                old(self).selected_interface + 1
            } else {
                old(self).selected_interface as int
            }),
            final(self).info == old(self).info,
            final(self).error == old(self).error,
    {
        let count = match &self.info {
            Some(info) => info.interfaces.len(),
            None => 0,
        };
        if count > 0 && self.selected_interface + 1 < count {
            self.selected_interface = self.selected_interface + 1;
        }
    }

    /// Moves the cursor up five interfaces, clamped at the top.
    pub fn page_up(&mut self)
        requires
            old(self).wf(),
        ensures
            final(self).wf(),
            final(self).selected_interface as int == (if old(self).selected_interface >= 5 {
                old(self).selected_interface - 5
            } else {
                0int
            }),
            final(self).info == old(self).info,
            final(self).error == old(self).error,
    {
        if self.selected_interface >= 5 {
            self.selected_interface = self.selected_interface - 5;
        } else {
            self.selected_interface = 0;
        }
    }

    /// Moves the cursor down five interfaces, clamped at the bottom.
    pub fn page_down(&mut self)
        requires
            old(self).wf(),
        ensures
            final(self).wf(),
            old(self).iface_count() > 0 ==> final(self).selected_interface as int == (if old(self).selected_interface + 5 < old(self).iface_count() {
                old(self).selected_interface + 5
            } else {
                old(self).iface_count() - 1
            }),
            old(self).iface_count() == 0 ==> final(self).selected_interface == old(self).selected_interface,
            final(self).info == old(self).info,
            final(self).error == old(self).error,
    {
        let count = match &self.info {
            Some(info) => info.interfaces.len(),
            None => 0,
        };
        if count > 0 {
            if self.selected_interface < count - 1 && count - 1 - self.selected_interface > 5 {
                self.selected_interface = self.selected_interface + 5;
            } else {
                self.selected_interface = count - 1;
            }
        }
    }

    /// Jumps the cursor to the first interface.
    pub fn go_top(&mut self)
        requires
            old(self).wf(),
        ensures
            final(self).wf(),
            final(self).selected_interface == 0usize,
            final(self).info == old(self).info,
            final(self).error == old(self).error,
    {
        self.selected_interface = 0;
    }

    /// Jumps the cursor to the last interface, if any.
    pub fn go_bottom(&mut self)
        requires
            old(self).wf(),
        ensures
            final(self).wf(),
            old(self).iface_count() > 0 ==> final(self).selected_interface as int == old(self).iface_count() - 1,
            old(self).iface_count() == 0 ==> final(self).selected_interface == old(self).selected_interface,
            final(self).info == old(self).info,
            final(self).error == old(self).error,
    {
        let count = match &self.info {
            Some(info) => info.interfaces.len(),
            None => 0,
        };
        if count > 0 {
            self.selected_interface = count - 1;
        }
    }
}


} // verus!
