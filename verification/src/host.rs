//! The host panel's data: identity, locale, time and uptime.  The shell
//! queries the system services and reads the files; the release text and
//! the uptime figure are parsed and rendered here.

use vstd::prelude::*;

use crate::text::{chars_of, chunks_view, dec_seq, dec_val, digit_val, has_prefix, lines_of,
    lines_spec, parse_u64_chars, split_ws, split_ws_spec, starts_with_chars, string_from_chars,
    u64_dec_chars};

verus! {

/// The gathered host snapshot.
pub struct HostInfo {
    pub hostname: String,
    pub static_hostname: String,
    pub timezone: String,
    pub locale: String,
    pub os_name: String,
    pub os_version: String,
    pub uptime: String,
    pub ntp_enabled: String,
    pub ntp_sync: String,
}

/// A value with every leading and trailing double quote removed.
pub open spec fn trim_quotes(s: Seq<char>) -> Seq<char>
    decreases s.len(),
{
    if s.len() == 0 {
        s
    } else if s[0] == '"' {
        trim_quotes(s.drop_first())
    } else if s.last() == '"' {
        trim_quotes(s.drop_last())
    } else {
        s
    }
}

/// The value of the last line carrying the given prefix, unquoted, or the
/// literal "unknown".
pub open spec fn release_field(ls: Seq<Seq<char>>, prefix: Seq<char>) -> Seq<char>
    decreases ls.len(),
{
    if ls.len() == 0 {
        "unknown"@
    } else if has_prefix(ls.last(), prefix) {
        trim_quotes(ls.last().subrange(prefix.len() as int, ls.last().len() as int))
    } else {
        release_field(ls.drop_last(), prefix)
    }
}

fn trim_quotes_exec(s: &Vec<char>) -> (r: Vec<char>)
    ensures
        r@ == trim_quotes(s@),
{
    let mut lo: usize = 0;
    let mut hi: usize = s.len();
    proof {
        assert(s@.subrange(0, s@.len() as int) =~= s@);
    }
    while lo < hi && s[lo] == '"'
        invariant
            lo <= hi <= s@.len(),
            trim_quotes(s@) == trim_quotes(s@.subrange(lo as int, hi as int)),
        decreases hi - lo,
    {
        proof {
            let cur = s@.subrange(lo as int, hi as int);
            assert(cur.drop_first() =~= s@.subrange(lo + 1 as int, hi as int));
        }
        lo = lo + 1;
    }
    while lo < hi && s[hi - 1] == '"'
        invariant
            lo <= hi <= s@.len(),
            trim_quotes(s@) == trim_quotes(s@.subrange(lo as int, hi as int)),
            lo < hi ==> s@[lo as int] != '"',
        decreases hi - lo,
    {
        proof {
            let cur = s@.subrange(lo as int, hi as int);
            assert(cur.drop_last() =~= s@.subrange(lo as int, hi - 1 as int));
        }
        hi = hi - 1;
    }
    let mut r: Vec<char> = Vec::new();
    let mut i: usize = lo;
    while i < hi
        invariant
            lo <= i <= hi <= s@.len(),
            r@ == s@.subrange(lo as int, i as int),
        decreases hi - i,
    {
        r.push(s[i]);
        proof {
            assert(r@ =~= s@.subrange(lo as int, i + 1 as int));
        }
        i = i + 1;
    }
    proof {
        let cur = s@.subrange(lo as int, hi as int);
        if lo < hi {
            assert(cur[0] != '"');
            assert(cur.last() != '"');
        }
        assert(trim_quotes(cur) == cur);
        assert(r@ =~= cur);
    }
    r
}

fn release_field_exec(ls: &Vec<Vec<char>>, prefix: &str) -> (r: String)
    ensures
        r@ == release_field(chunks_view(ls@), prefix@),
{
    let ll = ls.len();
    let mut i: usize = ll;
    proof {
        assert(chunks_view(ls@).subrange(0, ll as int) =~= chunks_view(ls@));
    }
    while i > 0
        invariant
            i <= ll,
            ll == ls@.len(),
            release_field(chunks_view(ls@), prefix@) == release_field(
                chunks_view(ls@).subrange(0, i as int),
                prefix@,
            ),
        decreases i,
    {
        proof {
            let cur = chunks_view(ls@).subrange(0, i as int);
            assert(cur.drop_last() =~= chunks_view(ls@).subrange(0, i - 1 as int));
            assert(cur.last() == ls@[i - 1]@);
        }
        if starts_with_chars(&ls[i - 1], prefix) {
            let pc = chars_of(prefix);
            let line = &ls[i - 1];
            let mut value: Vec<char> = Vec::new();
            let mut j: usize = pc.len();
            let ln = line.len();
            while j < ln
                invariant
                    pc@.len() <= j <= ln,
                    ln == line@.len(),
                    pc@ == prefix@,
                    value@ == line@.subrange(pc@.len() as int, j as int),
                decreases ln - j,
            {
                value.push(line[j]);
                proof {
                    assert(value@ =~= line@.subrange(pc@.len() as int, j + 1 as int));
                }
                j = j + 1;
            }
            proof {
                assert(value@ =~= ls@[i - 1]@.subrange(
                    prefix@.len() as int,
                    ls@[i - 1]@.len() as int,
                ));
            }
            let unquoted = trim_quotes_exec(&value);
            return string_from_chars(&unquoted);
        }
        i = i - 1;
    }
    proof {
        assert(chunks_view(ls@).subrange(0, 0) =~= Seq::<Seq<char>>::empty());
    }
    "unknown".to_owned()
}

/// Parses the release text: the pretty name and the version, each from
/// the last line carrying it, unquoted, or "unknown".
pub fn parse_os_release(content: &str) -> (r: (String, String))
    ensures
        r.0@ == release_field(lines_spec(content@), "PRETTY_NAME="@),
        r.1@ == release_field(lines_spec(content@), "VERSION_ID="@),
{
    let cc = chars_of(content);
    let ls = lines_of(&cc);
    let name = release_field_exec(&ls, "PRETTY_NAME=");
    let version = release_field_exec(&ls, "VERSION_ID=");
    (name, version)
}

/// The run of decimal digits a sequence starts with.
pub open spec fn digit_prefix(s: Seq<char>) -> Seq<char>
    decreases s.len(),
{
    if s.len() > 0 && digit_val(s[0]) is Some {
        seq![s[0]] + digit_prefix(s.drop_first())
    } else {
        Seq::empty()
    }
}

/// The whole seconds the uptime text reports: the leading digits of its
/// first token, or zero when there are none or they do not fit.
pub open spec fn uptime_seconds_spec(content: Seq<char>) -> int {
    let parts = split_ws_spec(content);
    if parts.len() == 0 {
        0
    } else {
        let digits = digit_prefix(parts[0]);
        if digits.len() > 0 && dec_val(digits) <= u64::MAX as int {
            dec_val(digits)
        } else {
            0
        }
    }
}

/// Reads the whole seconds off the uptime text.
pub fn parse_uptime_seconds(content: &str) -> (r: u64)
    ensures
        r as int == uptime_seconds_spec(content@),
{
    let cc = chars_of(content);
    let parts = split_ws(&cc);
    if parts.len() == 0 {
        return 0;
    }
    proof {
        assert(chunks_view(parts@)[0] == parts@[0]@);
    }
    let token = &parts[0];
    let tl = token.len();
    let mut digits: Vec<char> = Vec::new();
    let mut i: usize = 0;
    while i < tl && digit_is_some(token[i])
        invariant
            tl == token@.len(),
            i <= tl,
            digits@ == token@.subrange(0, i as int),
            forall|j: int| 0 <= j < i ==> digit_val(#[trigger] token@[j]) is Some,
        decreases tl - i,
    {
        digits.push(token[i]);
        proof {
            assert(digits@ =~= token@.subrange(0, i + 1 as int));
        }
        i = i + 1;
    }
    proof {
        lemma_digit_prefix(token@, i as int);
        assert(digits@ =~= digit_prefix(token@));
    }
    match parse_u64_chars(&digits) {
        Some(v) => v,
        None => 0,
    }
}

/// Whether one character is a decimal digit.
fn digit_is_some(c: char) -> (r: bool)
    ensures
        r == (digit_val(c) is Some),
{
    c == '0' || c == '1' || c == '2' || c == '3' || c == '4' || c == '5' || c == '6' || c == '7'
        || c == '8' || c == '9'
}

/// A run of digits that stops at `i` is exactly the digit prefix.
proof fn lemma_digit_prefix(s: Seq<char>, i: int)
    requires
        0 <= i <= s.len(),
        forall|j: int| 0 <= j < i ==> digit_val(#[trigger] s[j]) is Some,
        i < s.len() ==> digit_val(s[i]) is None,
    ensures
        digit_prefix(s) == s.subrange(0, i),
    decreases i,
{
    if i == 0 {
        assert(s.subrange(0, 0) =~= Seq::<char>::empty());
    } else {
        let d = s.drop_first();
        assert forall|j: int| 0 <= j < i - 1 implies digit_val(#[trigger] d[j]) is Some by {
            assert(d[j] == s[j + 1]);
        }
        if i - 1 < d.len() {
            assert(digit_val(d[i - 1]) == digit_val(s[i]));
        }
        lemma_digit_prefix(d, i - 1);
        assert(seq![s[0]] + d.subrange(0, i - 1) =~= s.subrange(0, i));
    }
}

/// The uptime figure rendered as days, hours and minutes, the larger
/// units omitted while they are zero.
pub open spec fn uptime_label_spec(seconds: int) -> Seq<char> {
    let d = seconds / 86400;
    let h = (seconds % 86400) / 3600;
    let m = (seconds % 3600) / 60;
    if d > 0 {
        dec_seq(d as nat) + "d "@ + dec_seq(h as nat) + "h "@ + dec_seq(m as nat) + "m"@
    } else if h > 0 {
        dec_seq(h as nat) + "h "@ + dec_seq(m as nat) + "m"@
    } else {
        dec_seq(m as nat) + "m"@
    }
}

/// Renders an uptime in whole seconds as days, hours and minutes.
pub fn uptime_label(seconds: u64) -> (r: String)
    ensures
        r@ == uptime_label_spec(seconds as int),
{
    proof {
        reveal_strlit("d ");
        reveal_strlit("h ");
        reveal_strlit("m");
        assert("d "@.len() == 2);
        assert("h "@.len() == 2);
        assert("m"@.len() == 1);
    }
    let d = seconds / 86400;
    let h = (seconds % 86400) / 3600;
    let m = (seconds % 3600) / 60;
    let mut out: Vec<char> = Vec::new();
    if d > 0 {
        u64_dec_chars(d, &mut out);
        out.push('d');
        out.push(' ');
        u64_dec_chars(h, &mut out);
        out.push('h');
        out.push(' ');
        u64_dec_chars(m, &mut out);
        out.push('m');
    } else if h > 0 {
        u64_dec_chars(h, &mut out);
        out.push('h');
        out.push(' ');
        u64_dec_chars(m, &mut out);
        out.push('m');
    } else {
        u64_dec_chars(m, &mut out);
        out.push('m');
    }
    proof {
        assert(out@ =~= uptime_label_spec(seconds as int));
    }
    string_from_chars(&out)
}

/// The host panel: the gathered snapshot or the error it failed with.
pub struct HostContext {
    pub info: Option<HostInfo>,
    pub error: Option<String>,
}

impl HostContext {
    /// An empty panel waiting for its first snapshot.
    pub fn new() -> (r: HostContext)
        ensures
            r.info is None,
            r.error is None,
    {
        HostContext { info: None, error: None }
    }

    /// Applies the outcome of a gather.
    pub fn refresh(&mut self, result: Result<HostInfo, String>)
        ensures
            (match result {
                Ok(info) => final(self).info == Some(info) && final(self).error is None,
                Err(e) => final(self).info is None && final(self).error == Some(e),
            }),
    {
        match result {
            Ok(info) => {
                self.info = Some(info);
                self.error = None;
            }
            Err(e) => {
                self.info = None;
                self.error = Some(e);
            }
        }
    }
}

} // verus!
