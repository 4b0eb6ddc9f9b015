//! The DNS panel's data: global and per-interface resolver settings.  The
//! shell queries the resolver service; the classic resolver-configuration
//! text is parsed here as the fallback.

use vstd::prelude::*;

use crate::text::{chars_of, chunks_view, has_prefix, lines_of, lines_spec, split_ws,
    split_ws_spec, starts_with_chars, string_from_chars, strings_view, trim_chars, trim_spec};

verus! {

/// The gathered resolver snapshot.
pub struct DnsInfo {
    pub current_dns: Vec<String>,
    pub fallback_dns: Vec<String>,
    pub dnssec: String,
    pub dnsovertls: String,
    pub search_domains: Vec<String>,
    pub interface_dns: Vec<InterfaceDns>,
}

/// The resolver settings of one interface.
pub struct InterfaceDns {
    pub name: String,
    pub dns_servers: Vec<String>,
    pub search_domains: Vec<String>,
}

/// The name servers the classic resolver configuration lists: the second
/// token of every line whose trimmed text starts with "nameserver".
pub open spec fn resolv_nameservers(ls: Seq<Seq<char>>) -> Seq<Seq<char>>
    decreases ls.len(),
{
    if ls.len() == 0 {
        Seq::empty()
    } else {
        let rest = resolv_nameservers(ls.drop_last());
        let t = trim_spec(ls.last());
        if has_prefix(t, "nameserver"@) && split_ws_spec(t).len() >= 2 {
            rest.push(split_ws_spec(t)[1])
        } else {
            rest
        }
    }
}

/// The search domains the classic resolver configuration lists: every
/// token after the first of every line whose trimmed text starts with
/// "search".
pub open spec fn resolv_domains(ls: Seq<Seq<char>>) -> Seq<Seq<char>>
    decreases ls.len(),
{
    if ls.len() == 0 {
        Seq::empty()
    } else {
        let rest = resolv_domains(ls.drop_last());
        let t = trim_spec(ls.last());
        if has_prefix(t, "search"@) && split_ws_spec(t).len() >= 1 {
            rest + split_ws_spec(t).drop_first()
        } else {
            rest
        }
    }
}

/// Parses the classic resolver configuration: its name servers and search
/// domains, with everything the resolver service would add left unknown.
pub fn parse_resolv_conf(content: &str) -> (r: DnsInfo)
    ensures
        strings_view(r.current_dns@) == resolv_nameservers(lines_spec(content@)),
        strings_view(r.search_domains@) == resolv_domains(lines_spec(content@)),
        r.fallback_dns@.len() == 0,
        r.dnssec@ == "unknown"@,
        r.dnsovertls@ == "unknown"@,
        r.interface_dns@.len() == 0,
{
    let cc = chars_of(content);
    let ls = lines_of(&cc);
    let mut current_dns: Vec<String> = Vec::new();
    let mut search_domains: Vec<String> = Vec::new();
    let ll = ls.len();
    let mut i: usize = 0;
    while i < ll
        invariant
            ll == ls@.len(),
            i <= ll,
            chunks_view(ls@) == lines_spec(content@),
            strings_view(current_dns@) == resolv_nameservers(
                chunks_view(ls@).subrange(0, i as int),
            ),
            strings_view(search_domains@) == resolv_domains(
                chunks_view(ls@).subrange(0, i as int),
            ),
        decreases ll - i,
    {
        let ghost pre = chunks_view(ls@).subrange(0, i as int);
        let ghost cur = chunks_view(ls@).subrange(0, i + 1 as int);
        proof {
            assert(cur.drop_last() =~= pre);
            assert(cur.last() == ls@[i as int]@);
        }
        let trimmed = trim_chars(&ls[i]);
        if starts_with_chars(&trimmed, "nameserver") {
            let parts = split_ws(&trimmed);
            if parts.len() >= 2 {
                proof {
                    assert(chunks_view(parts@)[1] == parts@[1]@);
                }
                let ghost snap = strings_view(current_dns@);
                current_dns.push(string_from_chars(&parts[1]));
                proof {
                    assert(strings_view(current_dns@) =~= snap.push(
                        split_ws_spec(trim_spec(cur.last()))[1],
                    ));
                    assert(strings_view(current_dns@) =~= resolv_nameservers(cur));
                }
            } else {
                proof {
                    assert(strings_view(current_dns@) =~= resolv_nameservers(cur));
                }
            }
            proof {
                reveal_strlit("nameserver");
                reveal_strlit("search");
                let t = trim_spec(cur.last());
                assert(!has_prefix(t, "search"@)) by {
                    if has_prefix(t, "search"@) {
                        assert(t.subrange(0, 6)[0] == t[0]);
                        assert(t.subrange(0, 10)[0] == t[0]);
                    }
                }
                assert(strings_view(search_domains@) =~= resolv_domains(cur));
            }
        } else if starts_with_chars(&trimmed, "search") {
            let mut parts = split_ws(&trimmed);
            proof {
                reveal_strlit("nameserver");
                reveal_strlit("search");
                let t = trim_spec(cur.last());
                assert(!has_prefix(t, "nameserver"@)) by {
                    if has_prefix(t, "nameserver"@) {
                        assert(t.subrange(0, 6)[0] == t[0]);
                        assert(t.subrange(0, 10)[0] == t[0]);
                    }
                }
                assert(strings_view(current_dns@) =~= resolv_nameservers(cur));
            }
            if parts.len() >= 1 {
                let ghost parts_orig = chunks_view(parts@);
                let ghost snap = strings_view(search_domains@);
                let mut j: usize = 1;
                let pl = parts.len();
                while j < pl
                    invariant
                        pl == parts@.len(),
                        1 <= j <= pl,
                        chunks_view(parts@) == parts_orig,
                        strings_view(search_domains@) == snap + parts_orig.subrange(1, j as int),
                    decreases pl - j,
                {
                    proof {
                        assert(chunks_view(parts@)[j as int] == parts@[j as int]@);
                    }
                    let ghost sd_pre = strings_view(search_domains@);
                    let ghost xv = parts_orig[j as int];
                    search_domains.push(string_from_chars(&parts[j]));
                    proof {
                        assert(strings_view(search_domains@) =~= sd_pre.push(xv));
                        assert(parts_orig.subrange(1, j + 1 as int) =~= parts_orig.subrange(
                            1,
                            j as int,
                        ).push(xv));
                        assert((snap + parts_orig.subrange(1, j as int)).push(xv) =~= snap
                            + parts_orig.subrange(1, j as int).push(xv));
                        assert(strings_view(search_domains@) =~= snap + parts_orig.subrange(
                            1,
                            j + 1 as int,
                        ));
                    }
                    j = j + 1;
                }
                proof {
                    assert(parts_orig.subrange(1, pl as int) =~= parts_orig.drop_first());
                    assert(strings_view(search_domains@) =~= resolv_domains(cur));
                }
            }
        } else {
            proof {
                assert(strings_view(current_dns@) =~= resolv_nameservers(cur));
                assert(strings_view(search_domains@) =~= resolv_domains(cur));
            }
        }
        i = i + 1;
    }
    proof {
        assert(chunks_view(ls@).subrange(0, ll as int) =~= chunks_view(ls@));
    }
    DnsInfo {
        current_dns,
        fallback_dns: Vec::new(),
        dnssec: "unknown".to_owned(),
        dnsovertls: "unknown".to_owned(),
        search_domains,
        interface_dns: Vec::new(),
    }
}

/// The DNS panel: the gathered snapshot with a cursor over the
/// per-interface list.
pub struct DnsContext {
    pub info: Option<DnsInfo>,
    pub error: Option<String>,
    pub selected_interface: usize,
}

impl DnsContext {
    /// How many per-interface entries the snapshot holds.
    pub open spec fn iface_count(self) -> int {
        match self.info {
            Some(info) => info.interface_dns@.len() as int,
            None => 0,
        }
    }

    /// The cursor lies in the per-interface list whenever it is non-empty.
    pub open spec fn wf(self) -> bool {
        self.iface_count() > 0 ==> (self.selected_interface as int) < self.iface_count()
    }

    /// An empty panel waiting for its first snapshot.
    pub fn new() -> (r: DnsContext)
        ensures
            r.wf(),
            r.info is None,
            r.error is None,
            r.selected_interface == 0usize,
    {
        DnsContext { info: None, error: None, selected_interface: 0 }
    }

    /// Applies the outcome of a gather, with the cursor reset.
    pub fn refresh(&mut self, result: Result<DnsInfo, String>)
        ensures
            final(self).wf(),
            final(self).selected_interface == 0usize,
            (match result {
                Ok(info) => final(self).info == Some(info) && final(self).error is None,
                Err(e) => final(self).info is None && final(self).error == Some(e),
            }),
    {
        match result {
            Ok(info) => {
                self.info = Some(info);
                self.error = None;
            }
            Err(e) => {
                self.info = None;
                self.error = Some(e);
            }
        }
        self.selected_interface = 0;
    }

    /// Moves the cursor up one entry, clamped at the top.
    pub fn move_up(&mut self)
        requires
            old(self).wf(),
        ensures
            final(self).wf(),
            final(self).selected_interface as int == (if old(self).iface_count() > 0 && old(
                self,
            ).selected_interface > 0 {
                old(self).selected_interface - 1
            } else {
                old(self).selected_interface as int
            }),
            final(self).info == old(self).info,
            final(self).error == old(self).error,
    {
        let count = match &self.info {
            Some(info) => info.interface_dns.len(),
            None => 0,
        };
        if count > 0 && self.selected_interface > 0 {
            self.selected_interface = self.selected_interface - 1;
        }
    }

    /// Moves the cursor down one entry, clamped at the bottom.
    pub fn move_down(&mut self)
        requires
            old(self).wf(),
        ensures
            final(self).wf(),
            final(self).selected_interface as int == (if old(self).selected_interface + 1 < old(
                self,
            ).iface_count() {
                old(self).selected_interface + 1
            } else {
                old(self).selected_interface as int
            }),
            final(self).info == old(self).info,
            final(self).error == old(self).error,
    {
        let count = match &self.info {
            Some(info) => info.interface_dns.len(),
            None => 0,
        };
        if count > 0 && self.selected_interface + 1 < count {
            self.selected_interface = self.selected_interface + 1;
        }
    }
}

} // verus!
